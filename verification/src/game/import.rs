//! Importing a game into a project: from what is known of the game and what
//! was found on the machine to the record of the registry.

pub mod ea;
pub mod egs;
pub mod gamepass;
pub mod nodrm;
pub mod steam;

use crate::game::import::ea::EaImporter;
use crate::game::import::egs::EgsImporter;
use crate::game::import::gamepass::GamepassImporter;
use crate::game::import::steam::SteamImporter;
use crate::game::registry::{ActiveDistribution, GameData};
use crate::ts::v1::models::ecosystem::{EcosystemSchema, GameDef, GameDefPlatform};
use crate::util::text::{is_decimal_u32, join_path, joined};
use vstd::prelude::*;
use vstd::string::StringExecFns;

verus! {

/// Why a game could not be imported.
#[derive(Debug, PartialEq, Eq)]
pub enum Error {
    /// The game is sold on no platform that games can be imported from.
    NotSupported(String, String),
    /// The schema of the ecosystem knows no game with this identifier.
    InvalidGameId(String),
    /// The game is not installed through the platform.
    NotFound(String, String),
    /// The directory does not exist or cannot be read.
    DirNotFound(String),
    /// The directory holds none of the executables of the game.
    ExeNotFound(String, String),
    /// The schema of the ecosystem could not be fetched.
    EcosystemSchema,
    /// The registry of the system could not be read.
    RegistryRead(String),
    /// No Steam library was found.
    SteamDirNotFound,
    /// The path names no Steam library.
    SteamDirBadPath(String),
    /// The Steam library at the path holds no app with this number.
    SteamAppNotFound(u32, String),
}

/// What the command line sets in place of what is found.
#[derive(Debug, PartialEq, Eq)]
pub struct ImportOverrides {
    pub custom_name: Option<String>,
    pub custom_id: Option<String>,
    pub custom_exe: Option<String>,
    pub game_dir: Option<String>,
}

/// What is known of a game that is to be imported.
#[derive(Debug, PartialEq, Eq)]
pub struct ImportBase {
    pub game_id: String,
    pub game_def: GameDef,
    pub overrides: ImportOverrides,
    pub wine_prefix: Option<String>,
}

/// The importer that was chosen for a game.
#[derive(Debug, PartialEq, Eq)]
pub enum Importer {
    Ea(EaImporter),
    Egs(EgsImporter),
    Gamepass(GamepassImporter),
    Steam(SteamImporter),
}

impl ImportOverrides {
    /// Overrides that set nothing.
    pub fn new() -> (o: ImportOverrides)
        ensures
            o.custom_name is None,
            o.custom_id is None,
            o.custom_exe is None,
            o.game_dir is None,
    {
        ImportOverrides { custom_name: None, custom_id: None, custom_exe: None, game_dir: None }
    }
}

/// Whether games can be imported from the platform.
pub open spec fn is_importable(platform: GameDefPlatform) -> bool {
    !(platform is Other)
}

/// The position of the first platform at or after `from` that games can be
/// imported from, or the number of platforms when there is none.
pub open spec fn first_importable(distributions: Seq<GameDefPlatform>, from: int) -> int
    decreases distributions.len() - from,
{
    if from < 0 || from >= distributions.len() {
        distributions.len() as int
    } else if is_importable(distributions[from]) {
        from
    } else {
        first_importable(distributions, from + 1)
    }
}

/// The name that a game has on Steam is a number that fits in 32 bits.
pub open spec fn steam_id_is_number(platform: GameDefPlatform) -> bool {
    match platform {
        GameDefPlatform::Steam { identifier } => is_decimal_u32(identifier@),
        GameDefPlatform::SteamDirect { identifier } => is_decimal_u32(identifier@),
        _ => true,
    }
}

/// The importer for a platform from which games can be imported.
pub open spec fn importer_matches(importer: Importer, platform: GameDefPlatform) -> bool {
    match platform {
        GameDefPlatform::Origin { identifier } => importer matches Importer::Ea(ea)
            && ea.ident()@ == identifier@,
        GameDefPlatform::EpicGames { identifier } => importer matches Importer::Egs(egs)
            && egs.ident()@ == identifier@,
        GameDefPlatform::GamePass { identifier } => importer matches Importer::Gamepass(gamepass)
            && gamepass.ident()@ == identifier@,
        GameDefPlatform::Steam { identifier } => importer matches Importer::Steam(steam)
            && steam.appid() == crate::util::text::decimal_value(identifier@) && steam.steam_dir()
            is None,
        GameDefPlatform::SteamDirect { identifier } => importer matches Importer::Steam(steam)
            && steam.appid() == crate::util::text::decimal_value(identifier@) && steam.steam_dir()
            is None,
        GameDefPlatform::Other => false,
    }
}

impl ImportBase {
    /// What is known of the game `game_id`: its definition in the schema of
    /// the ecosystem, and nothing set in its place.
    pub fn new(game_id: &str, schema: EcosystemSchema) -> (r: Result<ImportBase, Error>)
        ensures
            ({
                let at = EcosystemSchema::game_index(schema.games@, game_id@, 0);
                match r {
                    Ok(base) => {
                        &&& at < schema.games@.len()
                        &&& base.game_id@ == game_id@
                        &&& base.game_def == schema.games@[at].1
                        &&& base.overrides.custom_name is None
                        &&& base.overrides.custom_id is None
                        &&& base.overrides.custom_exe is None
                        &&& base.overrides.game_dir is None
                        &&& base.wine_prefix is None
                    },
                    Err(e) => at >= schema.games@.len() && (e matches Error::InvalidGameId(id)
                        && id@ == game_id@),
                }
            }),
    {
        let wanted = String::from_str(game_id);
        let mut games = schema.games;
        let mut i: usize = 0;
        while i < games.len()
            invariant
                i <= games.len(),
                games == schema.games,
                wanted@ == game_id@,
                EcosystemSchema::game_index(games@, game_id@, 0) == EcosystemSchema::game_index(
                    games@,
                    game_id@,
                    i as int,
                ),
            decreases games.len() - i,
        {
            if games[i].0 == wanted {
                let (_, game_def) = games.remove(i);
                return Ok(
                    ImportBase {
                        game_id: wanted,
                        game_def,
                        overrides: ImportOverrides::new(),
                        wine_prefix: None,
                    },
                );
            }
            i += 1;
        }
        Err(Error::InvalidGameId(wanted))
    }

    pub fn with_overrides(self, overrides: ImportOverrides) -> (base: ImportBase)
        ensures
            base == (ImportBase { overrides, ..self }),
    {
        ImportBase { overrides, ..self }
    }

    pub fn with_wine_prefix(self, wine_prefix: Option<String>) -> (base: ImportBase)
        ensures
            base == (ImportBase { wine_prefix, ..self }),
    {
        ImportBase { wine_prefix, ..self }
    }

    /// Whether every name that the game has on Steam is a number that fits in
    /// 32 bits, as `select_importer` asks.
    pub fn has_steam_numbers(&self) -> (r: bool)
        ensures
            r == forall|i: int|
                0 <= i < self.game_def.distributions@.len() ==> steam_id_is_number(
                    #[trigger] self.game_def.distributions@[i],
                ),
    {
        let mut i: usize = 0;
        while i < self.game_def.distributions.len()
            invariant
                i <= self.game_def.distributions.len(),
                forall|k: int|
                    0 <= k < i ==> steam_id_is_number(#[trigger] self.game_def.distributions@[k]),
            decreases self.game_def.distributions.len() - i,
        {
            let ok = match &self.game_def.distributions[i] {
                GameDefPlatform::Steam { identifier } => SteamImporter::is_app_id(identifier.as_str()),
                GameDefPlatform::SteamDirect { identifier } => SteamImporter::is_app_id(
                    identifier.as_str(),
                ),
                _ => true,
            };
            if !ok {
                return false;
            }
            i += 1;
        }
        true
    }
}

/// Chooses the importer for a game: that of the first platform of the game
/// from which games can be imported. A game that is sold on none of them is
/// not supported.
///
/// The name that the game has on Steam must be a number.
pub fn select_importer(base: &ImportBase) -> (r: Result<Importer, Error>)
    requires
        forall|i: int|
            0 <= i < base.game_def.distributions@.len() ==> steam_id_is_number(
                #[trigger] base.game_def.distributions@[i],
            ),
    ensures
        ({
            let at = first_importable(base.game_def.distributions@, 0);
            match r {
                Ok(importer) => at < base.game_def.distributions@.len() && importer_matches(
                    importer,
                    base.game_def.distributions@[at],
                ),
                Err(e) => at >= base.game_def.distributions@.len() && (e matches Error::NotSupported(
                    game,
                    platform,
                ) && game@ == base.game_id@ && platform@ == Seq::<char>::empty()),
            }
        }),
{
    let distributions = &base.game_def.distributions;
    let mut i: usize = 0;
    while i < distributions.len()
        invariant
            i <= distributions.len(),
            distributions == &base.game_def.distributions,
            forall|k: int|
                0 <= k < distributions@.len() ==> steam_id_is_number(#[trigger] distributions@[k]),
            first_importable(distributions@, 0) == first_importable(distributions@, i as int),
        decreases distributions.len() - i,
    {
        assert(steam_id_is_number(distributions@[i as int]));
        match &distributions[i] {
            GameDefPlatform::Origin { identifier } => {
                return Ok(Importer::Ea(EaImporter::new(identifier.as_str())));
            },
            GameDefPlatform::EpicGames { identifier } => {
                return Ok(Importer::Egs(EgsImporter::new(identifier.as_str())));
            },
            GameDefPlatform::GamePass { identifier } => {
                return Ok(Importer::Gamepass(GamepassImporter::new(identifier.as_str())));
            },
            GameDefPlatform::Steam { identifier } => {
                return Ok(Importer::Steam(SteamImporter::new(identifier.as_str())));
            },
            GameDefPlatform::SteamDirect { identifier } => {
                return Ok(Importer::Steam(SteamImporter::new(identifier.as_str())));
            },
            GameDefPlatform::Other => {},
        }
        i += 1;
    }
    Err(Error::NotSupported(base.game_id.clone(), String::new()))
}

/// The position of the first of the names `possible` at which a file was
/// found, or the number of names when there is none. `is_file` says, for each
/// name in turn, whether there is a file of that name; of a name for which it
/// says nothing there is none.
pub open spec fn first_file(possible: Seq<String>, is_file: Seq<bool>, from: int) -> int
    decreases possible.len() - from,
{
    if from < 0 || from >= possible.len() {
        possible.len() as int
    } else if from < is_file.len() && is_file[from] {
        from
    } else {
        first_file(possible, is_file, from + 1)
    }
}

/// The executable of a game in the directory `base_path`: the path of the
/// first of the names `possible` at which there is a file. `is_file` says,
/// for each name in turn, whether there is a file of that name in the
/// directory.
pub fn find_game_exe(possible: &Vec<String>, base_path: &str, is_file: &Vec<bool>) -> (r: Option<
    String,
>)
    ensures
        ({
            let at = first_file(possible@, is_file@, 0);
            match r {
                Some(path) => at < possible@.len() && path@ == joined(base_path@, possible@[at]@),
                None => at >= possible@.len(),
            }
        }),
{
    let mut i: usize = 0;
    while i < possible.len()
        invariant
            i <= possible.len(),
            first_file(possible@, is_file@, 0) == first_file(possible@, is_file@, i as int),
        decreases possible.len() - i,
    {
        if i < is_file.len() && is_file[i] {
            return Some(join_path(base_path, possible[i].as_str()));
        }
        i += 1;
    }
    None
}

/// The record of an imported game. Identifier and name are those that were
/// set on the command line, or else the label and the name that the game has
/// in the ecosystem.
pub fn construct_data(base: ImportBase, dist: ActiveDistribution) -> (data: GameData)
    ensures
        data.identifier@ == (match base.overrides.custom_id {
            Some(id) => id@,
            None => base.game_def.label@,
        }),
        data.ecosystem_label == base.game_def.label,
        data.display_name == (match base.overrides.custom_name {
            Some(name) => name,
            None => base.game_def.meta.display_name,
        }),
        data.active_distribution == dist,
        data.possible_distributions == base.game_def.distributions,
{
    let identifier = match base.overrides.custom_id {
        Some(id) => id,
        None => base.game_def.label.clone(),
    };
    let display_name = match base.overrides.custom_name {
        Some(name) => name,
        None => base.game_def.meta.display_name,
    };
    GameData {
        identifier,
        ecosystem_label: base.game_def.label,
        display_name,
        active_distribution: dist,
        possible_distributions: base.game_def.distributions,
    }
}

/// The executable of a game that is imported: the one set on the command
/// line when it counts and there is one, or else the one that was found.
pub open spec fn chosen_exe(base: ImportBase, found_exe: Option<String>, use_custom_exe: bool) -> Option<
    String,
> {
    if use_custom_exe && base.overrides.custom_exe is Some {
        base.overrides.custom_exe
    } else {
        found_exe
    }
}

/// `data` is the record of the game of `base`, found in `game_dir` with the
/// executable `exe_path`: the data of the game lies in the directory that the
/// game's definition names, below `game_dir`; identifier and name are those
/// that were set on the command line, or else the label and the name that the
/// game has in the ecosystem.
pub open spec fn is_record_of(data: GameData, base: ImportBase, game_dir: String, exe_path: String) -> bool {
    &&& data.active_distribution.exe_path == exe_path
    &&& data.active_distribution.game_dir == game_dir
    &&& data.active_distribution.data_dir@ == joined(
        game_dir@,
        base.game_def.r2modman->0.data_folder_name@,
    )
    &&& data.identifier@ == (match base.overrides.custom_id {
        Some(id) => id@,
        None => base.game_def.label@,
    })
    &&& data.ecosystem_label == base.game_def.label
    &&& data.display_name == (match base.overrides.custom_name {
        Some(name) => name,
        None => base.game_def.meta.display_name,
    })
    &&& data.possible_distributions == base.game_def.distributions
}

/// The import fails for want of an executable of the game of `base` in
/// `game_dir`.
pub open spec fn is_missing_exe(e: Error, base: ImportBase, game_dir: String) -> bool {
    e matches Error::ExeNotFound(label, dir) && label@ == base.game_def.label@ && dir@ == game_dir@
}

/// The record of a game that was found in `game_dir`, on the platform `dist`.
///
/// The executable is the one set on the command line, when `use_custom_exe`
/// lets it count, or else `found_exe`, the executable that was found in the
/// directory; without either the import fails.
pub fn construct_at(
    base: ImportBase,
    dist: GameDefPlatform,
    game_dir: String,
    found_exe: Option<String>,
    use_custom_exe: bool,
) -> (r: Result<GameData, Error>)
    requires
        base.game_def.r2modman is Some,
    ensures
        match r {
            Ok(data) => chosen_exe(base, found_exe, use_custom_exe) matches Some(path)
                && is_record_of(data, base, game_dir, path) && data.active_distribution.dist == dist,
            Err(e) => chosen_exe(base, found_exe, use_custom_exe) is None && is_missing_exe(
                e,
                base,
                game_dir,
            ),
        },
{
    let mut base = base;
    let custom = if use_custom_exe {
        base.overrides.custom_exe.take()
    } else {
        None
    };
    let exe = match custom {
        Some(path) => Some(path),
        None => found_exe,
    };
    let exe_path = match exe {
        Some(path) => path,
        None => {
            return Err(Error::ExeNotFound(base.game_def.label.clone(), game_dir));
        },
    };
    let data_dir = match &base.game_def.r2modman {
        Some(r2mm) => join_path(game_dir.as_str(), r2mm.data_folder_name.as_str()),
        None => String::new(),
    };
    let dist = ActiveDistribution { dist, game_dir, data_dir, exe_path };
    Ok(construct_data(base, dist))
}

} // verus!
