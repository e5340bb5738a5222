//! The event scoring engine: the spec-level transition the engine is
//! proved to implement, and the stateful engine itself.
//!
//! Two conventions of the protocol are fixed here deliberately: a chain
//! counts as the hub when its identifier is a member of the configured
//! hub-identifier set, and the sender credited for an opaque packet is
//! the one at index source-channel-count plus one of the sender list.

use vstd::hash_map::StringHashMap;
use vstd::hash_set::StringHashSet;
use vstd::prelude::*;
use vstd::string::StringExecFns;

use crate::bech32;
use crate::bech32::{bech32_decode, bech32_encode};
use crate::config::{hub_set, roster_map, string_view_map, GozScoringConfig};
use crate::event::{Envelope, Event, InnerEvent, Message};
use crate::score::Score;
use crate::text::{contains_str, spec_contains_seq};

verus! {

/// The mutable scoring state, read as mathematical maps and sets.
#[verifier::ext_equal]
pub struct StateV {
    /// Accumulated counters per team name.
    pub scores: Map<Seq<char>, Score>,
    /// Channel identifiers learned to originate from the hub.
    pub source_channels: Set<Seq<char>>,
    /// Transaction hashes already consumed for scoring.
    pub observed_transactions: Set<Seq<char>>,
}

impl StateV {
    /// The empty state a run starts from.
    pub open spec fn init() -> StateV {
        StateV {
            scores: Map::empty(),
            source_channels: Set::empty(),
            observed_transactions: Set::empty(),
        }
    }
}

/// Saturating addition of a mathematical count onto a 64-bit counter.
pub open spec fn sat_add(a: u64, n: nat) -> u64 {
    if a + n > u64::MAX {
        u64::MAX
    } else {
        (a + n) as u64
    }
}

/// The team a sender address resolves to, if any: an address that
/// already carries the `cosmos1` prefix somewhere in its text is looked
/// up directly; any other address is decoded as bech32, its payload
/// re-encoded under the `cosmos` prefix, and the re-encoding looked up;
/// a malformed address resolves to nothing.
pub open spec fn resolve_spec(roster: Map<Seq<char>, Seq<char>>, addr: Seq<char>) -> Option<
    Seq<char>,
> {
    if spec_contains_seq(addr, "cosmos1"@) {
        if roster.contains_key(addr) {
            Some(roster[addr])
        } else {
            None
        }
    } else {
        match bech32_decode(addr) {
            Some(pair) => {
                let rekey = bech32_encode("cosmos"@, pair.1);
                if roster.contains_key(rekey) {
                    Some(roster[rekey])
                } else {
                    None
                }
            },
            None => None,
        }
    }
}

/// The score after crediting one attributed opaque packet: exactly one
/// classification counter goes up by one — hub packet when the reporting
/// network is a hub chain, packet from the hub when the first source
/// channel was learned from the hub, plain opaque packet otherwise — and
/// the total counter goes up by the source-channel count.
pub open spec fn credit(
    hubs: Set<Seq<char>>,
    channels: Set<Seq<char>>,
    network: Seq<char>,
    chan0: Seq<char>,
    n_chans: nat,
    base: Score,
) -> Score {
    let bumped = if hubs.contains(network) {
        Score { hub_opaque_packets: sat_add(base.hub_opaque_packets, 1), ..base }
    } else if channels.contains(chan0) {
        Score { packets_from_hub: sat_add(base.packets_from_hub, 1), ..base }
    } else {
        Score { opaque_packets_tx: sat_add(base.opaque_packets_tx, 1), ..base }
    };
    Score { opaque_packets_total: sat_add(bumped.opaque_packets_total, n_chans), ..bumped }
}

/// Attribution of a fresh opaque packet, after its hash was committed:
/// the sender at index source-channel-count plus one is resolved to a
/// team, the team's score entry is created if missing, and the packet is
/// credited when the source-channel list is non-empty. A missing
/// attribute, an out-of-range index or an unresolved address leaves the
/// state unchanged.
pub open spec fn step_attribution(
    roster: Map<Seq<char>, Seq<char>>,
    hubs: Set<Seq<char>>,
    s: StateV,
    network: Seq<char>,
    ev: InnerEvent,
) -> StateV {
    match ev.lookup("message.sender"@) {
        None => s,
        Some(senders) => match ev.lookup("recv_packet.packet_src_channel"@) {
            None => s,
            Some(chans) => {
                if chans.len() + 1 < senders.len() {
                    match resolve_spec(roster, senders[chans.len() + 1 as int]) {
                        Some(team) => {
                            let base = if s.scores.contains_key(team) {
                                s.scores[team]
                            } else {
                                Score::zero()
                            };
                            if chans.len() > 0 {
                                let credited = credit(
                                    hubs,
                                    s.source_channels,
                                    network,
                                    chans[0],
                                    chans.len(),
                                    base,
                                );
                                StateV { scores: s.scores.insert(team, credited), ..s }
                            } else {
                                StateV { scores: s.scores.insert(team, base), ..s }
                            }
                        },
                        None => s,
                    }
                } else {
                    s
                }
            },
        },
    }
}

/// One opaque-packet event against the state: the first transaction
/// hash, when present and fresh, is committed to the observed set before
/// attribution is attempted; an absent or empty hash list, or an already
/// observed hash, leaves the state unchanged.
pub open spec fn step_opaque(
    roster: Map<Seq<char>, Seq<char>>,
    hubs: Set<Seq<char>>,
    s: StateV,
    network: Seq<char>,
    ev: InnerEvent,
) -> StateV {
    match ev.lookup("tx.hash"@) {
        None => s,
        Some(hashes) => {
            if hashes.len() == 0 {
                s
            } else if s.observed_transactions.contains(hashes[0]) {
                s
            } else {
                let s1 = StateV {
                    observed_transactions: s.observed_transactions.insert(hashes[0]),
                    ..s
                };
                step_attribution(roster, hubs, s1, network, ev)
            }
        },
    }
}

/// One packet-transfer event: when the reporting network is a hub chain,
/// every destination channel named by the event joins the learned
/// source-channel set; otherwise nothing changes.
pub open spec fn step_transfer(
    hubs: Set<Seq<char>>,
    s: StateV,
    network: Seq<char>,
    ev: InnerEvent,
) -> StateV {
    if hubs.contains(network) {
        match ev.lookup("send_packet.packet_dst_channel"@) {
            Some(chans) => StateV { source_channels: s.source_channels.union(chans.to_set()), ..s },
            None => s,
        }
    } else {
        s
    }
}

/// One message against the state: relay-protocol events dispatch on
/// their kind; every other message leaves the state unchanged.
pub open spec fn step_message(
    roster: Map<Seq<char>, Seq<char>>,
    hubs: Set<Seq<char>>,
    s: StateV,
    network: Seq<char>,
    m: Message,
) -> StateV {
    match m {
        Message::EventIBC(Event::OpaquePacket(ev)) => step_opaque(roster, hubs, s, network, ev),
        Message::EventIBC(Event::PacketTransfer(ev)) => step_transfer(hubs, s, network, ev),
        _ => s,
    }
}

/// A whole envelope against the state: its messages, in order.
pub open spec fn step_messages(
    roster: Map<Seq<char>, Seq<char>>,
    hubs: Set<Seq<char>>,
    s: StateV,
    network: Seq<char>,
    msgs: Seq<Message>,
) -> StateV
    decreases msgs.len(),
{
    if msgs.len() == 0 {
        s
    } else {
        step_message(
            roster,
            hubs,
            step_messages(roster, hubs, s, network, msgs.drop_last()),
            network,
            msgs.last(),
        )
    }
}

/// Adding one element of a sequence to the set of the elements before it
/// gives the set of the elements up to and including it.
proof fn lemma_take_to_set_step(s: Seq<Seq<char>>, i: int)
    requires
        0 <= i < s.len(),
    ensures
        s.take(i + 1).to_set() == s.take(i).to_set().insert(s[i]),
{
    let a = s.take(i);
    let b = s.take(i + 1);
    assert forall|y: Seq<char>| b.to_set().contains(y) implies a.to_set().insert(
        s[i],
    ).contains(y) by {
        let j = choose|j: int| 0 <= j < b.len() && b[j] == y;
        if j < i {
            assert(a[j] == y);
        } else {
            assert(y == s[i]);
        }
    };
    assert forall|y: Seq<char>| a.to_set().insert(s[i]).contains(y) implies b.to_set().contains(
        y,
    ) by {
        if y == s[i] {
            assert(b[i] == y);
        } else {
            let j = choose|j: int| 0 <= j < a.len() && a[j] == y;
            assert(b[j] == y);
        }
    };
    assert(b.to_set() =~= a.to_set().insert(s[i]));
}

/// The names list enumerates the keys of the score map exactly, each
/// name occurring once.
pub open spec fn names_cover(names: Seq<String>, scores: Map<Seq<char>, Score>) -> bool {
    &&& forall|i: int| 0 <= i < names.len() ==> scores.contains_key(#[trigger] names[i]@)
    &&& forall|k: Seq<char>|
        #[trigger] scores.contains_key(k) ==> exists|i: int|
            0 <= i < names.len() && names[i]@ == k
    &&& forall|i: int, j: int| 0 <= i < j < names.len() ==> names[i]@ != names[j]@
}

/// Recording a score entry keeps the name list exact: an existing key
/// leaves the list as it is, a fresh key is appended to it.
proof fn lemma_names_cover_insert(
    names: Seq<String>,
    scores: Map<Seq<char>, Score>,
    name: String,
    sc: Score,
)
    requires
        names_cover(names, scores),
    ensures
        scores.contains_key(name@) ==> names_cover(names, scores.insert(name@, sc)),
        !scores.contains_key(name@) ==> names_cover(names.push(name), scores.insert(name@, sc)),
{
    let scores1 = scores.insert(name@, sc);
    if scores.contains_key(name@) {
        assert forall|k: Seq<char>| #[trigger] scores1.contains_key(k) implies exists|i: int|
            0 <= i < names.len() && names[i]@ == k by {
            assert(scores.contains_key(k));
        };
    } else {
        let names1 = names.push(name);
        assert forall|i: int| 0 <= i < names1.len() implies scores1.contains_key(
            #[trigger] names1[i]@,
        ) by {
            if i < names.len() {
                assert(names1[i] == names[i]);
            } else {
                assert(names1[i] == name);
            }
        };
        assert forall|k: Seq<char>| #[trigger] scores1.contains_key(k) implies exists|i: int|
            0 <= i < names1.len() && names1[i]@ == k by {
            if k == name@ {
                assert(names1[names.len() as int]@ == k);
            } else {
                assert(scores.contains_key(k));
                let i = choose|i: int| 0 <= i < names.len() && names[i]@ == k;
                assert(names1[i]@ == k);
            }
        };
        assert forall|i: int, j: int| 0 <= i < j < names1.len() implies names1[i]@
            != names1[j]@ by {
            if j < names.len() {
                assert(names[i]@ != names[j]@);
            } else {
                assert(names1[i] == names[i]);
                assert(scores.contains_key(names[i]@));
                assert(names1[j] == name);
            }
        };
    }
}

/// The event scoring engine. It owns all mutable scoring state of one
/// run together with the roster and hub identifiers it was configured
/// with, consumes one decoded envelope at a time, and exposes the final
/// counters.
pub struct GozScoringApp {
    scores: StringHashMap<Score>,
    team_names: Vec<String>,
    address_to_team: StringHashMap<String>,
    hub_ids: StringHashSet,
    source_channels: StringHashSet,
    observed_transactions: StringHashSet,
}

impl GozScoringApp {
    /// The roster the engine was configured with.
    pub closed spec fn roster_view(&self) -> Map<Seq<char>, Seq<char>> {
        string_view_map(self.address_to_team@)
    }

    /// The hub chain identifiers the engine was configured with.
    pub closed spec fn hub_view(&self) -> Set<Seq<char>> {
        self.hub_ids@
    }

    /// The mutable scoring state.
    pub closed spec fn state(&self) -> StateV {
        StateV {
            scores: self.scores@,
            source_channels: self.source_channels@,
            observed_transactions: self.observed_transactions@,
        }
    }

    /// Well-formedness: the recorded team names are exactly the keys of
    /// the score map, each name occurring once.
    pub closed spec fn wf(&self) -> bool {
        names_cover(self.team_names@, self.scores@)
    }

    /// Creates an engine from the startup configuration, with empty
    /// scoring state.
    pub fn new(config: &GozScoringConfig) -> (app: Self)
        ensures
            app.wf(),
            app.state() == StateV::init(),
            app.roster_view() == roster_map(config.teams@),
            app.hub_view() == hub_set(config.hub_id@),
    {
        let address_to_team = config.build_hashmaps();
        let mut hub_ids = StringHashSet::new();
        let n = config.hub_id.len();
        let mut i: usize = 0;
        proof {
            assert(config.hub_id@.take(0).map_values(|s: String| s@) =~= Seq::<
                Seq<char>,
            >::empty());
            assert(hub_ids@ =~= hub_set(config.hub_id@.take(0)));
        }
        while i < n
            invariant
                i <= n,
                n == config.hub_id@.len(),
                hub_ids@ == hub_set(config.hub_id@.take(i as int)),
            decreases n - i,
        {
            hub_ids.insert(config.hub_id[i].clone());
            proof {
                let f = |s: String| s@;
                let mapped = config.hub_id@.map_values(f);
                assert(config.hub_id@.take(i as int).map_values(f) =~= mapped.take(i as int));
                assert(config.hub_id@.take(i as int + 1).map_values(f) =~= mapped.take(
                    i as int + 1,
                ));
                lemma_take_to_set_step(mapped, i as int);
                assert(hub_ids@ =~= hub_set(config.hub_id@.take(i as int + 1)));
            }
            i += 1;
        }
        proof {
            assert(config.hub_id@.take(n as int) =~= config.hub_id@);
        }
        GozScoringApp {
            scores: StringHashMap::new(),
            team_names: Vec::new(),
            address_to_team,
            hub_ids,
            source_channels: StringHashSet::new(),
            observed_transactions: StringHashSet::new(),
        }
    }

    /// Resolves a sender address to the name of the team it is
    /// registered under, as `resolve_spec` describes.
    pub fn get_team_by_address(&self, address: &str) -> (r: Option<String>)
        ensures
            match r {
                Some(t) => resolve_spec(self.roster_view(), address@) == Some(t@),
                None => resolve_spec(self.roster_view(), address@) is None,
            },
    {
        if contains_str(address, "cosmos1") {
            match self.address_to_team.get(address) {
                Some(name) => Some(name.clone()),
                None => None,
            }
        } else {
            match bech32::decode(address) {
                Some(pair) => {
                    let rekey = bech32::encode("cosmos", &pair.1);
                    match self.address_to_team.get(rekey.as_str()) {
                        Some(name) => Some(name.clone()),
                        None => None,
                    }
                },
                None => None,
            }
        }
    }

    /// The score recorded so far for a team, if any.
    pub fn score_of(&self, team: &str) -> (r: Option<Score>)
        ensures
            match r {
                Some(sc) => self.state().scores.contains_key(team@) && sc
                    == self.state().scores[team@],
                None => !self.state().scores.contains_key(team@),
            },
    {
        match self.scores.get(team) {
            Some(sc) => Some(*sc),
            None => None,
        }
    }

    /// An immutable read of the current scores: every team credited so
    /// far, exactly once, with its counters.
    pub fn snapshot(&self) -> (r: Vec<(String, Score)>)
        requires
            self.wf(),
        ensures
            forall|i: int|
                0 <= i < r@.len() ==> self.state().scores.contains_key(#[trigger] r@[i].0@)
                    && r@[i].1 == self.state().scores[r@[i].0@],
            forall|k: Seq<char>|
                #[trigger] self.state().scores.contains_key(k) ==> exists|i: int|
                    0 <= i < r@.len() && r@[i].0@ == k,
            forall|i: int, j: int| 0 <= i < j < r@.len() ==> r@[i].0@ != r@[j].0@,
    {
        let mut out: Vec<(String, Score)> = Vec::new();
        let n = self.team_names.len();
        let mut i: usize = 0;
        while i < n
            invariant
                i <= n,
                n == self.team_names@.len(),
                self.wf(),
                out@.len() == i,
                forall|j: int|
                    0 <= j < i ==> (#[trigger] out@[j].0)@ == self.team_names@[j]@ && out@[j].1
                        == self.scores@[self.team_names@[j]@],
            decreases n - i,
        {
            let name = &self.team_names[i];
            let sc = self.scores.get(name.as_str()).unwrap();
            out.push((name.clone(), *sc));
            i += 1;
        }
        proof {
            assert forall|k: Seq<char>| #[trigger]
                self.state().scores.contains_key(k) implies exists|j: int|
                0 <= j < out@.len() && out@[j].0@ == k by {
                let j = choose|j: int|
                    0 <= j < self.team_names@.len() && self.team_names@[j]@ == k;
                assert(out@[j].0@ == k);
            };
        }
        out
    }

    /// Processes every message of one envelope, in input order: packet
    /// transfers reported by a hub chain teach source channels, opaque
    /// packets are deduplicated by transaction hash, attributed to a
    /// team, and credited. The roster and hub configuration never
    /// change.
    pub fn score_envelope(&mut self, envelope: Envelope)
        requires
            old(self).wf(),
        ensures
            final(self).wf(),
            final(self).roster_view() == old(self).roster_view(),
            final(self).hub_view() == old(self).hub_view(),
            final(self).state() == step_messages(
                old(self).roster_view(),
                old(self).hub_view(),
                old(self).state(),
                envelope.network@,
                envelope.msg@,
            ),
    {
        let n = envelope.msg.len();
        let mut i: usize = 0;
        while i < n
            invariant
                i <= n,
                n == envelope.msg@.len(),
                self.wf(),
                self.roster_view() == old(self).roster_view(),
                self.hub_view() == old(self).hub_view(),
                self.state() == step_messages(
                    old(self).roster_view(),
                    old(self).hub_view(),
                    old(self).state(),
                    envelope.network@,
                    envelope.msg@.take(i as int),
                ),
            decreases n - i,
        {
            proof {
                assert(envelope.msg@.take(i as int + 1).drop_last() =~= envelope.msg@.take(
                    i as int,
                ));
                assert(envelope.msg@.take(i as int + 1).last() == envelope.msg@[i as int]);
            }
            match &envelope.msg[i] {
                Message::EventIBC(event) => match event {
                    Event::OpaquePacket(inner) => self.handle_opaque(&envelope.network, inner),
                    Event::PacketTransfer(inner) => self.handle_transfer(&envelope.network, inner),
                    Event::Other => {},
                },
                Message::Other => {},
            }
            i += 1;
        }
        proof {
            assert(envelope.msg@.take(n as int) =~= envelope.msg@);
        }
    }

    /// One packet-transfer event, as `step_transfer` describes.
    fn handle_transfer(&mut self, network: &String, ev: &InnerEvent)
        requires
            old(self).wf(),
        ensures
            final(self).wf(),
            final(self).roster_view() == old(self).roster_view(),
            final(self).hub_view() == old(self).hub_view(),
            final(self).state() == step_transfer(
                old(self).hub_view(),
                old(self).state(),
                network@,
                *ev,
            ),
    {
        if !self.hub_ids.contains(network.as_str()) {
            return ;
        }
        let key = String::from_str("send_packet.packet_dst_channel");
        let chans = match ev.get(&key) {
            Some(chans) => chans,
            None => { return ; },
        };
        let ghost chans_spec = chans.deep_view();
        let m = chans.len();
        let mut j: usize = 0;
        proof {
            assert(chans_spec.take(0).to_set() =~= Set::<Seq<char>>::empty());
            assert(old(self).source_channels@.union(chans_spec.take(0).to_set()) =~= old(
                self,
            ).source_channels@);
        }
        while j < m
            invariant
                j <= m,
                m == chans@.len(),
                chans_spec == chans.deep_view(),
                self.wf(),
                self.scores@ == old(self).scores@,
                self.team_names@ == old(self).team_names@,
                self.observed_transactions@ == old(self).observed_transactions@,
                self.roster_view() == old(self).roster_view(),
                self.hub_view() == old(self).hub_view(),
                self.source_channels@ == old(self).source_channels@.union(
                    chans_spec.take(j as int).to_set(),
                ),
            decreases m - j,
        {
            self.source_channels.insert(chans[j].clone());
            proof {
                assert(chans_spec[j as int] == chans@[j as int]@);
                lemma_take_to_set_step(chans_spec, j as int);
                assert(self.source_channels@ =~= old(self).source_channels@.union(
                    chans_spec.take(j as int + 1).to_set(),
                ));
            }
            j += 1;
        }
        proof {
            assert(chans_spec.take(m as int) =~= chans_spec);
            assert(self.state() =~= step_transfer(
                old(self).hub_view(),
                old(self).state(),
                network@,
                *ev,
            ));
        }
    }

    /// One opaque-packet event, as `step_opaque` describes.
    fn handle_opaque(&mut self, network: &String, ev: &InnerEvent)
        requires
            old(self).wf(),
        ensures
            final(self).wf(),
            final(self).roster_view() == old(self).roster_view(),
            final(self).hub_view() == old(self).hub_view(),
            final(self).state() == step_opaque(
                old(self).roster_view(),
                old(self).hub_view(),
                old(self).state(),
                network@,
                *ev,
            ),
    {
        let key_hash = String::from_str("tx.hash");
        let hashes = match ev.get(&key_hash) {
            Some(hashes) => hashes,
            None => { return ; },
        };
        if hashes.len() == 0 {
            return ;
        }
        let hash = &hashes[0];
        proof {
            assert(hashes.deep_view()[0] == hashes@[0]@);
        }
        if self.observed_transactions.contains(hash.as_str()) {
            return ;
        }
        self.observed_transactions.insert(hash.clone());
        let ghost s1 = StateV {
            observed_transactions: old(self).observed_transactions@.insert(hash@),
            ..old(self).state()
        };
        proof {
            assert(self.state() =~= s1);
        }
        let key_senders = String::from_str("message.sender");
        let senders = match ev.get(&key_senders) {
            Some(senders) => senders,
            None => { return ; },
        };
        let key_chans = String::from_str("recv_packet.packet_src_channel");
        let chans = match ev.get(&key_chans) {
            Some(chans) => chans,
            None => { return ; },
        };
        if senders.len() == 0 || chans.len() >= senders.len() - 1 {
            return ;
        }
        let idx = chans.len() + 1;
        let sender = &senders[idx];
        proof {
            assert(senders.deep_view()[idx as int] == senders@[idx as int]@);
        }
        let team = match self.get_team_by_address(sender.as_str()) {
            Some(team) => team,
            None => { return ; },
        };
        let ghost team0 = team;
        let newly = !self.scores.contains_key(team.as_str());
        let base = match self.scores.get(team.as_str()) {
            Some(sc) => *sc,
            None => Score::default(),
        };
        let ghost names0 = self.team_names@;
        let ghost scores0 = self.scores@;
        if newly {
            self.team_names.push(team.clone());
        }
        if chans.len() > 0 {
            let chan0 = &chans[0];
            proof {
                assert(chans.deep_view()[0] == chans@[0]@);
            }
            let mut updated = base;
            if self.hub_ids.contains(network.as_str()) {
                updated.hub_opaque_packets = updated.hub_opaque_packets.saturating_add(1);
            } else if self.source_channels.contains(chan0.as_str()) {
                updated.packets_from_hub = updated.packets_from_hub.saturating_add(1);
            } else {
                updated.opaque_packets_tx = updated.opaque_packets_tx.saturating_add(1);
            }
            updated.opaque_packets_total = updated.opaque_packets_total.saturating_add(
                chans.len() as u64,
            );
            proof {
                assert(updated == credit(
                    old(self).hub_view(),
                    s1.source_channels,
                    network@,
                    chans.deep_view()[0],
                    chans.deep_view().len(),
                    base,
                ));
            }
            self.scores.insert(team, updated);
            proof {
                lemma_names_cover_insert(names0, scores0, team0, updated);
            }
        } else {
            self.scores.insert(team, base);
            proof {
                lemma_names_cover_insert(names0, scores0, team0, base);
            }
        }
        proof {
            assert(self.wf());
            assert(self.state() =~= step_opaque(
                old(self).roster_view(),
                old(self).hub_view(),
                old(self).state(),
                network@,
                *ev,
            ));
        }
    }
}

} // verus!
