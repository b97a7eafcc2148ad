//! Games that are installed without a launcher.

use crate::game::import::{
    chosen_exe, construct_at, is_missing_exe, is_record_of, Error, ImportBase,
};
use crate::game::registry::GameData;
use crate::ts::v1::models::ecosystem::GameDefPlatform;
use vstd::prelude::*;
use vstd::string::StringExecFns;

verus! {

/// The importer of a game that lies in the directory `game_dir`.
#[derive(Debug, PartialEq, Eq)]
pub struct NoDrmImporter {
    game_dir: String,
}

impl NoDrmImporter {
    /// The directory of the game.
    pub closed spec fn game_dir(&self) -> String {
        self.game_dir
    }

    pub fn new(game_dir: &str) -> (importer: NoDrmImporter)
        ensures
            importer.game_dir()@ == game_dir@,
    {
        NoDrmImporter { game_dir: String::from_str(game_dir) }
    }

    /// The directory in which the executable of the game is looked for.
    pub fn directory(&self) -> (dir: &String)
        ensures
            *dir == self.game_dir(),
    {
        &self.game_dir
    }

    /// The record of the game. `dir_exists` says whether the directory of
    /// the game exists, and `found_exe` is the executable of the game that was
    /// found there. A directory that does not exist is reported before a
    /// missing executable.
    pub fn construct(self, base: ImportBase, dir_exists: bool, found_exe: Option<String>) -> (r:
        Result<GameData, Error>)
        requires
            base.game_def.r2modman is Some,
        ensures
            match r {
                Ok(data) => {
                    &&& dir_exists
                    &&& chosen_exe(base, found_exe, true) matches Some(path) && is_record_of(
                        data,
                        base,
                        self.game_dir(),
                        path,
                    )
                    &&& data.active_distribution.dist is Other
                },
                Err(e) => if !dir_exists {
                    e matches Error::DirNotFound(dir) && dir == self.game_dir()
                } else {
                    chosen_exe(base, found_exe, true) is None && is_missing_exe(
                        e,
                        base,
                        self.game_dir(),
                    )
                },
            },
    {
        if !dir_exists {
            return Err(Error::DirNotFound(self.game_dir));
        }
        construct_at(base, GameDefPlatform::Other, self.game_dir, found_exe, true)
    }
}

} // verus!
