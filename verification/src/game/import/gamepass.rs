//! Games installed through PC Game Pass.

use crate::game::import::{
    chosen_exe, construct_at, is_missing_exe, is_record_of, Error, ImportBase,
};
use crate::game::registry::GameData;
use crate::ts::v1::models::ecosystem::GameDefPlatform;
use crate::util::reg::RegKeyVal;
use crate::util::text::{begins_with, push_str, remove_char, starts_with, without};
use vstd::prelude::*;
use vstd::string::StringExecFns;

verus! {

/// The importer of a game that PC Game Pass knows under the name `ident`.
#[derive(Debug, PartialEq, Eq)]
pub struct GamepassImporter {
    ident: String,
}

/// The position of the first value whose name begins with `ident`, or the
/// number of values when there is none.
pub open spec fn package_index(values: Seq<RegKeyVal>, ident: Seq<char>, from: int) -> int
    decreases values.len() - from,
{
    if from < 0 || from >= values.len() {
        values.len() as int
    } else if begins_with(values[from].key@, ident) {
        from
    } else {
        package_index(values, ident, from + 1)
    }
}

impl GamepassImporter {
    /// The name of the game on the platform.
    pub closed spec fn ident(&self) -> String {
        self.ident
    }

    pub fn new(ident: &str) -> (importer: GamepassImporter)
        ensures
            importer.ident()@ == ident@,
    {
        GamepassImporter { ident: String::from_str(ident) }
    }

    /// The key of the system's registry that lists the installed packages.
    pub fn packages_subkey() -> (subkey: String)
        ensures
            subkey@ == "Software\\Microsoft\\GamingServices\\PackageRepository\\Package\\"@,
    {
        String::from_str("Software\\Microsoft\\GamingServices\\PackageRepository\\Package\\")
    }

    /// The identifier under which the game's package is installed: the value
    /// of the first entry of the package list whose name begins with the name
    /// of the game, without its quotation marks. A game without such an entry
    /// is not installed through the platform.
    pub fn find_package_uuid(&self, values: &Vec<RegKeyVal>, game_label: &str) -> (r: Result<
        String,
        Error,
    >)
        ensures
            ({
                let at = package_index(values@, self.ident()@, 0);
                match r {
                    Ok(uuid) => at < values@.len() && uuid@ == without(values@[at].val@, '"'),
                    Err(e) => at >= values@.len() && (e matches Error::NotFound(label, platform)
                        && label@ == game_label@ && platform@ == "Gamepass"@),
                }
            }),
    {
        let mut i: usize = 0;
        while i < values.len()
            invariant
                i <= values.len(),
                package_index(values@, self.ident()@, 0) == package_index(
                    values@,
                    self.ident()@,
                    i as int,
                ),
            decreases values.len() - i,
        {
            if starts_with(values[i].key.as_str(), self.ident.as_str()) {
                return Ok(remove_char(values[i].val.as_str(), '"'));
            }
            i += 1;
        }
        Err(Error::NotFound(String::from_str(game_label), String::from_str("Gamepass")))
    }

    /// The key of the system's registry under which the roots of the package
    /// `uuid` are listed.
    pub fn root_subkey(uuid: &str) -> (subkey: String)
        ensures
            subkey@ == "Root\\"@ + uuid@ + "\\"@,
    {
        let mut subkey = String::from_str("Root\\");
        push_str(&mut subkey, uuid);
        push_str(&mut subkey, "\\");
        subkey
    }

    /// The record of the game, installed in `game_dir`. `found_exe` is the
    /// executable of the game that was found there.
    pub fn construct(self, base: ImportBase, game_dir: String, found_exe: Option<String>) -> (r:
        Result<GameData, Error>)
        requires
            base.game_def.r2modman is Some,
        ensures
            match r {
                Ok(data) => {
                    &&& chosen_exe(base, found_exe, true) matches Some(path) && is_record_of(
                        data,
                        base,
                        game_dir,
                        path,
                    )
                    &&& data.active_distribution.dist matches GameDefPlatform::GamePass {
                        identifier,
                    } && identifier@ == self.ident()@
                },
                Err(e) => chosen_exe(base, found_exe, true) is None && is_missing_exe(
                    e,
                    base,
                    game_dir,
                ),
            },
    {
        let dist = GameDefPlatform::GamePass { identifier: self.ident };
        construct_at(base, dist, game_dir, found_exe, true)
    }
}

} // verus!
