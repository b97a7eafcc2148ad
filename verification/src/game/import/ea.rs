//! Games installed through EA Desktop.

use crate::game::import::{
    chosen_exe, construct_at, is_missing_exe, is_record_of, Error, ImportBase,
};
use crate::game::registry::GameData;
use crate::ts::v1::models::ecosystem::GameDefPlatform;
use crate::util::text::{push_str, replace_char, replaced};
use vstd::prelude::*;
use vstd::string::StringExecFns;

verus! {

/// The importer of a game that EA Desktop knows under the name `ident`.
#[derive(Debug, PartialEq, Eq)]
pub struct EaImporter {
    ident: String,
}

impl EaImporter {
    /// The name of the game on the platform.
    pub closed spec fn ident(&self) -> String {
        self.ident
    }

    pub fn new(ident: &str) -> (importer: EaImporter)
        ensures
            importer.ident()@ == ident@,
    {
        EaImporter { ident: String::from_str(ident) }
    }

    /// The key of the system's registry under which the game's directory is
    /// recorded: `Software\`, the name of the game with its dots turned into
    /// backslashes, and a backslash.
    pub fn registry_subkey(&self) -> (subkey: String)
        ensures
            subkey@ == "Software\\"@ + replaced(self.ident()@, '.', '\\') + "\\"@,
    {
        let mut subkey = String::from_str("Software\\");
        let path = replace_char(self.ident.as_str(), '.', '\\');
        push_str(&mut subkey, path.as_str());
        push_str(&mut subkey, "\\");
        subkey
    }

    /// The record of the game, installed in `game_dir`. `found_exe` is the
    /// executable of the game that was found there.
    pub fn construct(self, base: ImportBase, game_dir: String, found_exe: Option<String>) -> (r:
        Result<GameData, Error>)
        requires
            base.game_def.r2modman is Some,
        ensures
            match r {
                Ok(data) => {
                    &&& chosen_exe(base, found_exe, true) matches Some(path) && is_record_of(
                        data,
                        base,
                        game_dir,
                        path,
                    )
                    &&& data.active_distribution.dist matches GameDefPlatform::Origin { identifier }
                        && identifier@ == self.ident()@
                },
                Err(e) => chosen_exe(base, found_exe, true) is None && is_missing_exe(
                    e,
                    base,
                    game_dir,
                ),
            },
    {
        let dist = GameDefPlatform::Origin { identifier: self.ident };
        construct_at(base, dist, game_dir, found_exe, true)
    }
}

} // verus!
