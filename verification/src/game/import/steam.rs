//! Games installed through Steam.

use crate::game::import::{construct_at, is_missing_exe, is_record_of, Error, ImportBase};
use crate::game::registry::GameData;
use crate::ts::v1::models::ecosystem::GameDefPlatform;
use crate::util::text::{chars_of, decimal, decimal_value, is_decimal_u32, parse_decimal, push_decimal};
use vstd::prelude::*;

verus! {

/// The importer of the game that Steam knows under the number `appid`, from
/// the Steam library at `steam_dir` or, without one, from the library that
/// is found on the machine.
#[derive(Debug, PartialEq, Eq)]
pub struct SteamImporter {
    appid: u32,
    steam_dir: Option<String>,
}

impl SteamImporter {
    /// The number of the game on Steam.
    pub closed spec fn appid(&self) -> u32 {
        self.appid
    }

    /// The Steam library to look in.
    pub closed spec fn steam_dir(&self) -> Option<String> {
        self.steam_dir
    }

    /// Whether `appid` is the number of a game: decimal digits that make a
    /// number that fits in 32 bits.
    pub fn is_app_id(appid: &str) -> (r: bool)
        ensures
            r == is_decimal_u32(appid@),
    {
        let chars = chars_of(appid);
        assert(chars@.subrange(0, chars@.len() as int) =~= chars@);
        parse_decimal(&chars, 0, chars.len()).is_some()
    }

    /// The importer of the game with the number written in `appid`, which
    /// must be a number.
    pub fn new(appid: &str) -> (importer: SteamImporter)
        requires
            is_decimal_u32(appid@),
        ensures
            importer.appid() == decimal_value(appid@),
            importer.steam_dir() is None,
    {
        let chars = chars_of(appid);
        assert(chars@.subrange(0, chars@.len() as int) =~= chars@);
        let appid = match parse_decimal(&chars, 0, chars.len()) {
            Some(number) => number,
            None => 0,
        };
        SteamImporter { steam_dir: None, appid }
    }

    pub fn with_steam_dir(self, steam_dir: Option<String>) -> (importer: SteamImporter)
        ensures
            importer.appid() == self.appid(),
            importer.steam_dir() == steam_dir,
    {
        SteamImporter { steam_dir, ..self }
    }

    /// The number of the game.
    pub fn app_id(&self) -> (appid: u32)
        ensures
            appid == self.appid(),
    {
        self.appid
    }

    /// The Steam library to look in, when one was given.
    pub fn library(&self) -> (dir: &Option<String>)
        ensures
            *dir == self.steam_dir(),
    {
        &self.steam_dir
    }

    /// The record of the game. `app_dir` is the directory of the game: the
    /// one set on the command line, or else the one that the Steam library
    /// gives. `is_dir` says whether it is a directory, and `found_exe` is the
    /// executable of the game that was found there; an executable set on the
    /// command line does not count here.
    pub fn construct(
        self,
        base: ImportBase,
        app_dir: String,
        is_dir: bool,
        found_exe: Option<String>,
    ) -> (r: Result<GameData, Error>)
        requires
            base.game_def.r2modman is Some,
        ensures
            match r {
                Ok(data) => {
                    &&& is_dir
                    &&& found_exe matches Some(path) && is_record_of(data, base, app_dir, path)
                    &&& data.active_distribution.dist matches GameDefPlatform::Steam { identifier }
                        && identifier@ == decimal(self.appid() as nat)
                },
                Err(e) => if !is_dir {
                    e is SteamDirNotFound
                } else {
                    found_exe is None && is_missing_exe(e, base, app_dir)
                },
            },
    {
        if !is_dir {
            return Err(Error::SteamDirNotFound);
        }
        let mut identifier = String::new();
        push_decimal(&mut identifier, self.appid);
        assert(Seq::<char>::empty() + decimal(self.appid as nat) =~= decimal(self.appid as nat));
        let dist = GameDefPlatform::Steam { identifier };
        construct_at(base, dist, app_dir, found_exe, false)
    }
}

} // verus!
