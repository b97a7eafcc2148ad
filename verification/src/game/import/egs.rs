//! Games installed through the Epic Games Store.

use crate::game::import::{
    chosen_exe, construct_at, is_missing_exe, is_record_of, Error, ImportBase,
};
use crate::game::registry::GameData;
use crate::ts::v1::models::ecosystem::GameDefPlatform;
use crate::util::text::{join_path, joined};
use vstd::prelude::*;
use vstd::string::StringExecFns;

verus! {

/// The importer of a game that the Epic Games Store knows under the name
/// `ident`.
#[derive(Debug, PartialEq, Eq)]
pub struct EgsImporter {
    ident: String,
}

/// What the manifest of an installed game says: where the game is installed,
/// and the name of the game.
#[derive(Debug, PartialEq, Eq)]
pub struct PartialInstallManifest {
    pub install_location: String,
    pub app_name: String,
}

/// The position of the first manifest of the game `ident`, or the number of
/// manifests when there is none.
pub open spec fn manifest_index(
    manifests: Seq<PartialInstallManifest>,
    ident: Seq<char>,
    from: int,
) -> int
    decreases manifests.len() - from,
{
    if from < 0 || from >= manifests.len() {
        manifests.len() as int
    } else if manifests[from].app_name@ == ident {
        from
    } else {
        manifest_index(manifests, ident, from + 1)
    }
}

impl EgsImporter {
    /// The name of the game on the platform.
    pub closed spec fn ident(&self) -> String {
        self.ident
    }

    pub fn new(ident: &str) -> (importer: EgsImporter)
        ensures
            importer.ident()@ == ident@,
    {
        EgsImporter { ident: String::from_str(ident) }
    }

    /// The directory of the launcher's manifests, below the directory of its
    /// data.
    pub fn manifests_dir(app_data_path: &str) -> (dir: String)
        ensures
            dir@ == joined(app_data_path@, "Manifests"@),
    {
        join_path(app_data_path, "Manifests")
    }

    /// Where the game is installed: the place that the first manifest of the
    /// game names. A game without a manifest is not installed through the
    /// platform.
    pub fn find_install_location(
        &self,
        manifests: &Vec<PartialInstallManifest>,
        game_label: &str,
    ) -> (r: Result<String, Error>)
        ensures
            ({
                let at = manifest_index(manifests@, self.ident()@, 0);
                match r {
                    Ok(location) => at < manifests@.len() && location
                        == manifests@[at].install_location,
                    Err(e) => at >= manifests@.len() && (e matches Error::NotFound(label, platform)
                        && label@ == game_label@ && platform@ == "EGS"@),
                }
            }),
    {
        let mut i: usize = 0;
        while i < manifests.len()
            invariant
                i <= manifests.len(),
                manifest_index(manifests@, self.ident()@, 0) == manifest_index(
                    manifests@,
                    self.ident()@,
                    i as int,
                ),
            decreases manifests.len() - i,
        {
            if manifests[i].app_name == self.ident {
                return Ok(manifests[i].install_location.clone());
            }
            i += 1;
        }
        Err(Error::NotFound(String::from_str(game_label), String::from_str("EGS")))
    }

    /// The record of the game, installed in `game_dir`. `found_exe` is the
    /// executable of the game that was found there.
    pub fn construct(self, base: ImportBase, game_dir: String, found_exe: Option<String>) -> (r:
        Result<GameData, Error>)
        requires
            base.game_def.r2modman is Some,
        ensures
            match r {
                Ok(data) => {
                    &&& chosen_exe(base, found_exe, true) matches Some(path) && is_record_of(
                        data,
                        base,
                        game_dir,
                        path,
                    )
                    &&& data.active_distribution.dist is Other
                },
                Err(e) => chosen_exe(base, found_exe, true) is None && is_missing_exe(
                    e,
                    base,
                    game_dir,
                ),
            },
    {
        construct_at(base, GameDefPlatform::Other, game_dir, found_exe, true)
    }
}

} // verus!
