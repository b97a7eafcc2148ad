//! The registry of a project: the games that were imported into it.

use crate::ts::v1::models::ecosystem::GameDefPlatform;
use crate::util::os::OS;
use vstd::prelude::*;
use vstd::string::StringExecFns;

verus! {

/// A game that was imported into a project.
#[derive(Debug, PartialEq, Eq)]
pub struct GameData {
    pub ecosystem_label: String,
    pub identifier: String,
    pub display_name: String,
    pub active_distribution: ActiveDistribution,
    pub possible_distributions: Vec<GameDefPlatform>,
}

/// Where an imported game is installed.
#[derive(Debug, PartialEq, Eq)]
pub struct ActiveDistribution {
    pub dist: GameDefPlatform,
    pub game_dir: String,
    pub data_dir: String,
    pub exe_path: String,
}

/// The platforms from which games can be imported on an operating system:
/// Steam and games without a launcher everywhere, and three more launchers
/// on Windows.
pub open spec fn supported_platforms(target_os: OS) -> Seq<Seq<char>> {
    if target_os == OS::Windows {
        seq![
            "Steam"@,
            "DRM Free"@,
            "Epic Games Store (EGS)"@,
            "PC Game Pass"@,
            "EA Desktop"@,
        ]
    } else {
        seq!["Steam"@, "DRM Free"@]
    }
}

/// The platforms from which games can be imported on `target_os`.
pub fn get_supported_platforms(target_os: &OS) -> (platforms: Vec<&'static str>)
    ensures
        platforms@.map_values(|name: &'static str| name@) == supported_platforms(*target_os),
{
    let mut platforms: Vec<&'static str> = Vec::new();
    platforms.push("Steam");
    platforms.push("DRM Free");
    match target_os {
        OS::Windows => {
            platforms.push("Epic Games Store (EGS)");
            platforms.push("PC Game Pass");
            platforms.push("EA Desktop");
        },
        _ => {},
    }
    assert(platforms@.map_values(|name: &'static str| name@) =~= supported_platforms(*target_os));
    platforms
}

impl ActiveDistribution {
    /// Whether the two say the same: the same platform and the same paths.
    pub open spec fn same(self, other: ActiveDistribution) -> bool {
        self.dist.same(other.dist) && self.game_dir@ == other.game_dir@ && self.data_dir@
            == other.data_dir@ && self.exe_path@ == other.exe_path@
    }

    /// Whether the two say the same.
    pub fn is_same(&self, other: &ActiveDistribution) -> (r: bool)
        ensures
            r == self.same(*other),
    {
        self.dist.is_same(&other.dist) && self.game_dir == other.game_dir && self.data_dir
            == other.data_dir && self.exe_path == other.exe_path
    }
}

/// Whether two lists of platforms hold the same platforms in the same order.
pub open spec fn same_platforms(a: Seq<GameDefPlatform>, b: Seq<GameDefPlatform>) -> bool {
    a.len() == b.len() && forall|i: int| 0 <= i < a.len() ==> (#[trigger] a[i]).same(b[i])
}

impl GameData {
    /// Whether the two records say the same of a game.
    pub open spec fn same(self, other: GameData) -> bool {
        &&& self.ecosystem_label@ == other.ecosystem_label@
        &&& self.identifier@ == other.identifier@
        &&& self.display_name@ == other.display_name@
        &&& self.active_distribution.same(other.active_distribution)
        &&& same_platforms(self.possible_distributions@, other.possible_distributions@)
    }

    /// Whether the two records say the same of a game.
    pub fn is_same(&self, other: &GameData) -> (r: bool)
        ensures
            r == self.same(*other),
    {
        if !(self.ecosystem_label == other.ecosystem_label && self.identifier == other.identifier
            && self.display_name == other.display_name && self.active_distribution.is_same(
            &other.active_distribution,
        )) {
            return false;
        }
        if self.possible_distributions.len() != other.possible_distributions.len() {
            return false;
        }
        let mut i: usize = 0;
        while i < self.possible_distributions.len()
            invariant
                i <= self.possible_distributions.len(),
                self.possible_distributions.len() == other.possible_distributions.len(),
                forall|k: int|
                    0 <= k < i ==> (#[trigger] self.possible_distributions@[k]).same(
                        other.possible_distributions@[k],
                    ),
            decreases self.possible_distributions.len() - i,
        {
            if !self.possible_distributions[i].is_same(&other.possible_distributions[i]) {
                return false;
            }
            i += 1;
        }
        true
    }
}

/// The position of the first game with the identifier `game_id`, or the
/// number of games when there is none.
pub open spec fn game_index(registry: Seq<GameData>, game_id: Seq<char>, from: int) -> int
    decreases registry.len() - from,
{
    if from < 0 || from >= registry.len() {
        registry.len() as int
    } else if registry[from].identifier@ == game_id {
        from
    } else {
        game_index(registry, game_id, from + 1)
    }
}

/// The first game of the registry with the identifier `game_id`.
pub fn get_game_data(registry: Vec<GameData>, game_id: &str) -> (r: Option<GameData>)
    ensures
        ({
            let at = game_index(registry@, game_id@, 0);
            match r {
                Some(game) => at < registry@.len() && game == registry@[at],
                None => at >= registry@.len(),
            }
        }),
{
    let wanted = String::from_str(game_id);
    let mut games = registry;
    let mut i: usize = 0;
    while i < games.len()
        invariant
            i <= games.len(),
            games == registry,
            wanted@ == game_id@,
            game_index(registry@, game_id@, 0) == game_index(registry@, game_id@, i as int),
        decreases games.len() - i,
    {
        if games[i].identifier == wanted {
            return Some(games.remove(i));
        }
        i += 1;
    }
    None
}

/// Whether the registry holds a record that says the same as `data`.
pub open spec fn holds(registry: Seq<GameData>, data: GameData) -> bool {
    exists|i: int| 0 <= i < registry.len() && (#[trigger] registry[i]).same(data)
}

/// Enters a game into the registry. A game of which the registry holds the
/// same record already is not entered again. Returns whether the registry
/// changed and has to be written.
pub fn write_data(registry: &mut Vec<GameData>, data: GameData) -> (changed: bool)
    ensures
        changed == !holds(old(registry)@, data),
        final(registry)@ == (if changed {
            old(registry)@.push(data)
        } else {
            old(registry)@
        }),
{
    let mut i: usize = 0;
    while i < registry.len()
        invariant
            i <= registry.len(),
            *registry == *old(registry),
            forall|k: int| 0 <= k < i ==> !(#[trigger] registry@[k]).same(data),
        decreases registry.len() - i,
    {
        if registry[i].is_same(&data) {
            return false;
        }
        i += 1;
    }
    registry.push(data);
    true
}

} // verus!
