//! The schema of the ecosystem: the games that are known, and where each of
//! them is sold.

use vstd::prelude::*;
use vstd::string::StringExecFns;

verus! {

/// The schema of the ecosystem.
#[derive(Debug, PartialEq, Eq)]
pub struct EcosystemSchema {
    pub schema_version: String,
    pub games: Vec<(String, GameDef)>,
}

/// A game of the ecosystem.
#[derive(Debug, PartialEq, Eq)]
pub struct GameDef {
    pub uuid: String,
    pub label: String,
    pub meta: GameDefMeta,
    pub distributions: Vec<GameDefPlatform>,
    pub r2modman: Option<GameDefR2MM>,
}

/// How a game is shown.
#[derive(Debug, PartialEq, Eq)]
pub struct GameDefMeta {
    pub display_name: String,
    pub icon_url: Option<String>,
}

/// A platform on which a game is sold, with the name the game has there.
#[derive(Debug, PartialEq, Eq)]
pub enum GameDefPlatform {
    Origin { identifier: String },
    EpicGames { identifier: String },
    GamePass { identifier: String },
    Steam { identifier: String },
    SteamDirect { identifier: String },
    Other,
}

/// How a game lies on disk.
#[derive(Debug, PartialEq, Eq)]
pub struct GameDefR2MM {
    pub internal_folder_name: String,
    pub data_folder_name: String,
    pub settings_identifier: String,
    pub package_index: String,
    pub exclusions_url: String,
    pub steam_folder_name: String,
    pub exe_names: Vec<String>,
    pub game_instancetype: String,
    pub game_selection_display_mode: String,
    pub relative_file_exclusions: Vec<String>,
}

impl GameDefPlatform {
    /// A copy of this platform.
    pub fn duplicate(&self) -> (r: GameDefPlatform)
        ensures
            r == *self,
    {
        match self {
            GameDefPlatform::Origin { identifier } => GameDefPlatform::Origin {
                identifier: identifier.clone(),
            },
            GameDefPlatform::EpicGames { identifier } => GameDefPlatform::EpicGames {
                identifier: identifier.clone(),
            },
            GameDefPlatform::GamePass { identifier } => GameDefPlatform::GamePass {
                identifier: identifier.clone(),
            },
            GameDefPlatform::Steam { identifier } => GameDefPlatform::Steam {
                identifier: identifier.clone(),
            },
            GameDefPlatform::SteamDirect { identifier } => GameDefPlatform::SteamDirect {
                identifier: identifier.clone(),
            },
            GameDefPlatform::Other => GameDefPlatform::Other,
        }
    }

    /// The name of the platform.
    pub open spec fn platform_name(self) -> Seq<char> {
        match self {
            GameDefPlatform::Origin { .. } => "origin"@,
            GameDefPlatform::EpicGames { .. } => "epic-games-store"@,
            GameDefPlatform::GamePass { .. } => "xbox-game-pass"@,
            GameDefPlatform::Steam { .. } => "steam"@,
            GameDefPlatform::SteamDirect { .. } => "steam-direct"@,
            GameDefPlatform::Other => "other"@,
        }
    }

    /// The name that the game has on the platform; on other platforms it has
    /// none.
    pub open spec fn identifier(self) -> Option<String> {
        match self {
            GameDefPlatform::Origin { identifier } => Some(identifier),
            GameDefPlatform::EpicGames { identifier } => Some(identifier),
            GameDefPlatform::GamePass { identifier } => Some(identifier),
            GameDefPlatform::Steam { identifier } => Some(identifier),
            GameDefPlatform::SteamDirect { identifier } => Some(identifier),
            GameDefPlatform::Other => None,
        }
    }

    /// The name that the game has on this platform, when this is the
    /// platform called `name`.
    pub fn ident_from_name(&self, name: &str) -> (r: Option<String>)
        ensures
            r == (if self.platform_name() == name@ {
                self.identifier()
            } else {
                None
            }),
    {
        let wanted = String::from_str(name);
        match self {
            GameDefPlatform::Origin { identifier } => if wanted == String::from_str("origin") {
                Some(identifier.clone())
            } else {
                None
            },
            GameDefPlatform::EpicGames { identifier } => if wanted == String::from_str(
                "epic-games-store",
            ) {
                Some(identifier.clone())
            } else {
                None
            },
            GameDefPlatform::GamePass { identifier } => if wanted == String::from_str(
                "xbox-game-pass",
            ) {
                Some(identifier.clone())
            } else {
                None
            },
            GameDefPlatform::Steam { identifier } => if wanted == String::from_str("steam") {
                Some(identifier.clone())
            } else {
                None
            },
            GameDefPlatform::SteamDirect { identifier } => if wanted == String::from_str(
                "steam-direct",
            ) {
                Some(identifier.clone())
            } else {
                None
            },
            GameDefPlatform::Other => None,
        }
    }

    /// Whether the two platforms are the same, with the same name of the
    /// game.
    pub open spec fn same(self, other: GameDefPlatform) -> bool {
        match (self, other) {
            (
                GameDefPlatform::Origin { identifier: a },
                GameDefPlatform::Origin { identifier: b },
            ) => a@ == b@,
            (
                GameDefPlatform::EpicGames { identifier: a },
                GameDefPlatform::EpicGames { identifier: b },
            ) => a@ == b@,
            (
                GameDefPlatform::GamePass { identifier: a },
                GameDefPlatform::GamePass { identifier: b },
            ) => a@ == b@,
            (
                GameDefPlatform::Steam { identifier: a },
                GameDefPlatform::Steam { identifier: b },
            ) => a@ == b@,
            (
                GameDefPlatform::SteamDirect { identifier: a },
                GameDefPlatform::SteamDirect { identifier: b },
            ) => a@ == b@,
            (GameDefPlatform::Other, GameDefPlatform::Other) => true,
            _ => false,
        }
    }

    /// Whether the two platforms are the same, with the same name of the
    /// game.
    pub fn is_same(&self, other: &GameDefPlatform) -> (r: bool)
        ensures
            r == self.same(*other),
    {
        match (self, other) {
            (
                GameDefPlatform::Origin { identifier: a },
                GameDefPlatform::Origin { identifier: b },
            ) => *a == *b,
            (
                GameDefPlatform::EpicGames { identifier: a },
                GameDefPlatform::EpicGames { identifier: b },
            ) => *a == *b,
            (
                GameDefPlatform::GamePass { identifier: a },
                GameDefPlatform::GamePass { identifier: b },
            ) => *a == *b,
            (
                GameDefPlatform::Steam { identifier: a },
                GameDefPlatform::Steam { identifier: b },
            ) => *a == *b,
            (
                GameDefPlatform::SteamDirect { identifier: a },
                GameDefPlatform::SteamDirect { identifier: b },
            ) => *a == *b,
            (GameDefPlatform::Other, GameDefPlatform::Other) => true,
            _ => false,
        }
    }
}

impl GameDef {
    /// The position of the first platform at or after `from` that is called
    /// `name` and on which the game has a name, or the number of platforms
    /// when there is none.
    pub open spec fn platform_index(
        distributions: Seq<GameDefPlatform>,
        name: Seq<char>,
        from: int,
    ) -> int
        decreases distributions.len() - from,
    {
        if from < 0 || from >= distributions.len() {
            distributions.len() as int
        } else if distributions[from].platform_name() == name && distributions[from].identifier()
            is Some {
            from
        } else {
            GameDef::platform_index(distributions, name, from + 1)
        }
    }

    /// The name that the game has on the platform called `name`: that of the
    /// first of its platforms of this name.
    pub fn ident_on(&self, name: &str) -> (r: Option<String>)
        ensures
            ({
                let at = GameDef::platform_index(self.distributions@, name@, 0);
                r == (if at < self.distributions@.len() {
                    self.distributions@[at].identifier()
                } else {
                    None
                })
            }),
    {
        let mut i: usize = 0;
        while i < self.distributions.len()
            invariant
                i <= self.distributions.len(),
                GameDef::platform_index(self.distributions@, name@, 0) == GameDef::platform_index(
                    self.distributions@,
                    name@,
                    i as int,
                ),
            decreases self.distributions.len() - i,
        {
            match self.distributions[i].ident_from_name(name) {
                Some(ident) => {
                    return Some(ident);
                },
                None => {},
            }
            i += 1;
        }
        None
    }
}

impl EcosystemSchema {
    /// The position of the first game with the identifier `game_id`, or the
    /// number of games when there is none.
    pub open spec fn game_index(games: Seq<(String, GameDef)>, game_id: Seq<char>, from: int) -> int
        decreases games.len() - from,
    {
        if from < 0 || from >= games.len() {
            games.len() as int
        } else if games[from].0@ == game_id {
            from
        } else {
            EcosystemSchema::game_index(games, game_id, from + 1)
        }
    }

    /// The game with the identifier `game_id`, when the schema knows it.
    pub fn find_game(&self, game_id: &str) -> (r: Option<&GameDef>)
        ensures
            ({
                let at = EcosystemSchema::game_index(self.games@, game_id@, 0);
                match r {
                    Some(game) => at < self.games@.len() && *game == self.games@[at].1,
                    None => at >= self.games@.len(),
                }
            }),
    {
        let wanted = String::from_str(game_id);
        let mut i: usize = 0;
        while i < self.games.len()
            invariant
                i <= self.games.len(),
                wanted@ == game_id@,
                EcosystemSchema::game_index(self.games@, game_id@, 0) == EcosystemSchema::game_index(
                    self.games@,
                    game_id@,
                    i as int,
                ),
            decreases self.games.len() - i,
        {
            if self.games[i].0 == wanted {
                return Some(&self.games[i].1);
            }
            i += 1;
        }
        None
    }
}

/// Whether `input` matches the pattern `pattern`, in which `*` stands for
/// any run of characters and `?` for any one character, as the `wildmatch`
/// crate decides it.
pub uninterp spec fn wildcard_match(pattern: Seq<char>, input: Seq<char>) -> bool;

/// `WildMatch::new` and `WildMatch::matches` of the `wildmatch` crate.
/// Nothing is proved of it.
#[verifier::external_body]
fn wildcard_matches(pattern: &str, input: &str) -> (r: bool)
    ensures
        r == wildcard_match(pattern@, input@),
{
    wildmatch::WildMatch::new(pattern).matches(input)
}

impl GameDef {
    /// Whether the game is one that a search for `pattern` finds: the name
    /// under which it is shown or its label matches the pattern.
    pub open spec fn is_found_by(self, pattern: Seq<char>) -> bool {
        wildcard_match(pattern, self.meta.display_name@) || wildcard_match(pattern, self.label@)
    }
}

impl EcosystemSchema {
    /// The positions of the games among the first `upto` that a search for
    /// `pattern` finds.
    pub open spec fn found_by(games: Seq<(String, GameDef)>, pattern: Seq<char>, upto: int) -> Seq<
        usize,
    >
        decreases upto,
    {
        if upto <= 0 || upto > games.len() {
            Seq::empty()
        } else if games[upto - 1].1.is_found_by(pattern) {
            EcosystemSchema::found_by(games, pattern, upto - 1).push((upto - 1) as usize)
        } else {
            EcosystemSchema::found_by(games, pattern, upto - 1)
        }
    }

    /// The games that a search for `pattern` finds, by their positions in the
    /// schema: those whose name or label matches the pattern, in which `*`
    /// stands for any run of characters and `?` for any one character.
    pub fn search(&self, pattern: &str) -> (found: Vec<usize>)
        ensures
            found@ == EcosystemSchema::found_by(self.games@, pattern@, self.games@.len() as int),
    {
        let mut found: Vec<usize> = Vec::new();
        let mut i: usize = 0;
        while i < self.games.len()
            invariant
                i <= self.games.len(),
                found@ == EcosystemSchema::found_by(self.games@, pattern@, i as int),
            decreases self.games.len() - i,
        {
            let game = &self.games[i].1;
            if wildcard_matches(pattern, game.meta.display_name.as_str()) || wildcard_matches(
                pattern,
                game.label.as_str(),
            ) {
                found.push(i);
            }
            i += 1;
        }
        found
    }
}

} // verus!
