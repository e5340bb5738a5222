//! The configuration consumed once at startup: the hub chain identifiers
//! and the team roster, and the roster map built from it.

use vstd::hash_map::StringHashMap;
use vstd::prelude::*;

use crate::text::{normalize_address, normalize_key};

verus! {

/// One configured team: its relay address, as configured, and its name.
pub struct Team {
    /// The team's relay address, in whatever case and spacing it was
    /// configured with.
    pub address: String,
    /// The team's name, credited in the scores.
    pub name: String,
}

/// The startup configuration: the set of chain identifiers recognized as
/// the hub, and the team roster.
pub struct GozScoringConfig {
    /// Chain identifiers recognized as the hub.
    pub hub_id: Vec<String>,
    /// The configured teams.
    pub teams: Vec<Team>,
}

impl Default for GozScoringConfig {
    /// An empty configuration: no hub identifiers, no teams.
    fn default() -> (r: Self)
        ensures
            r.hub_id@.len() == 0,
            r.teams@.len() == 0,
    {
        GozScoringConfig { hub_id: Vec::new(), teams: Vec::new() }
    }
}

/// A map of string keys with its values read through their views.
pub open spec fn string_view_map(m: Map<Seq<char>, String>) -> Map<Seq<char>, Seq<char>> {
    m.map_values(|v: String| v@)
}

/// The roster built from a team list: each team's normalized address
/// mapped to its name. On an address collision the later entry wins;
/// duplicate entries are not rejected.
pub open spec fn roster_map(teams: Seq<Team>) -> Map<Seq<char>, Seq<char>>
    decreases teams.len(),
{
    if teams.len() == 0 {
        Map::empty()
    } else {
        roster_map(teams.drop_last()).insert(
            normalize_key(teams.last().address@),
            teams.last().name@,
        )
    }
}

/// The set of chain identifiers in a configured list.
pub open spec fn hub_set(ids: Seq<String>) -> Set<Seq<char>> {
    ids.map_values(|s: String| s@).to_set()
}

impl GozScoringConfig {
    /// Builds the address-to-team roster map: each team's address
    /// normalized (lowercased, spaces to underscores) and mapped to the
    /// team's name, later entries winning on collision.
    pub fn build_hashmaps(&self) -> (r: StringHashMap<String>)
        ensures
            string_view_map(r@) == roster_map(self.teams@),
    {
        let mut address_to_team = StringHashMap::<String>::new();
        let n = self.teams.len();
        let mut i: usize = 0;
        while i < n
            invariant
                i <= n,
                n == self.teams@.len(),
                string_view_map(address_to_team@) == roster_map(self.teams@.take(i as int)),
            decreases n - i,
        {
            let key = normalize_address(self.teams[i].address.as_str());
            address_to_team.insert(key, self.teams[i].name.clone());
            proof {
                assert(self.teams@.take(i as int + 1).drop_last() =~= self.teams@.take(i as int));
                assert(self.teams@.take(i as int + 1).last() == self.teams@[i as int]);
                assert(string_view_map(address_to_team@) =~= roster_map(
                    self.teams@.take(i as int + 1),
                ));
            }
            i += 1;
        }
        proof {
            assert(self.teams@.take(n as int) =~= self.teams@);
        }
        address_to_team
    }
}

} // verus!
