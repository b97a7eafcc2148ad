use tcli::game::import::ea::EaImporter;
use tcli::game::import::egs::{EgsImporter, PartialInstallManifest};
use tcli::game::import::gamepass::GamepassImporter;
use tcli::game::import::nodrm::NoDrmImporter;
use tcli::game::import::steam::SteamImporter;
use tcli::game::import::{
    construct_data, find_game_exe, select_importer, Error, ImportBase, ImportOverrides, Importer,
};
use tcli::game::registry::{
    get_game_data, get_supported_platforms, write_data, ActiveDistribution, GameData,
};
use tcli::ts::v1::models::ecosystem::{
    EcosystemSchema, GameDef, GameDefMeta, GameDefPlatform, GameDefR2MM,
};
use tcli::util::os::OS;
use tcli::util::reg::RegKeyVal;

fn r2mm() -> GameDefR2MM {
    GameDefR2MM {
        internal_folder_name: "RiskOfRain2".to_string(),
        data_folder_name: "Risk of Rain 2_Data".to_string(),
        settings_identifier: "RiskOfRain2".to_string(),
        package_index: "https://thunderstore.io/api/v1/package/".to_string(),
        exclusions_url: String::new(),
        steam_folder_name: "Risk of Rain 2".to_string(),
        exe_names: vec!["Risk of Rain 2.exe".to_string(), "ror2.x86_64".to_string()],
        game_instancetype: "game".to_string(),
        game_selection_display_mode: "visible".to_string(),
        relative_file_exclusions: vec![],
    }
}

fn game(label: &str, name: &str, distributions: Vec<GameDefPlatform>) -> GameDef {
    GameDef {
        uuid: "0000".to_string(),
        label: label.to_string(),
        meta: GameDefMeta { display_name: name.to_string(), icon_url: None },
        distributions,
        r2modman: Some(r2mm()),
    }
}

fn schema() -> EcosystemSchema {
    EcosystemSchema {
        schema_version: "0.1.0".to_string(),
        games: vec![
            (
                "riskofrain2".to_string(),
                game(
                    "riskofrain2",
                    "Risk of Rain 2",
                    vec![
                        GameDefPlatform::Other,
                        GameDefPlatform::Steam { identifier: "632360".to_string() },
                        GameDefPlatform::EpicGames { identifier: "4b3dcc5723454594afa5fa5f5c1bdf24".to_string() },
                    ],
                ),
            ),
            (
                "titanfall2".to_string(),
                game(
                    "titanfall2",
                    "Titanfall 2",
                    vec![GameDefPlatform::Origin { identifier: "Respawn.Titanfall2".to_string() }],
                ),
            ),
            ("lonely".to_string(), game("lonely", "Lonely Game", vec![GameDefPlatform::Other])),
        ],
    }
}

fn base(game_id: &str) -> ImportBase {
    ImportBase::new(game_id, schema()).unwrap()
}

fn dist(dir: &str) -> ActiveDistribution {
    ActiveDistribution {
        dist: GameDefPlatform::Other,
        game_dir: dir.to_string(),
        data_dir: format!("{}/data", dir),
        exe_path: format!("{}/game.exe", dir),
    }
}

#[test]
fn platforms_depend_on_the_system() {
    assert_eq!(get_supported_platforms(&OS::Linux), vec!["Steam", "DRM Free"]);
    assert_eq!(get_supported_platforms(&OS::Mac), vec!["Steam", "DRM Free"]);
    assert_eq!(
        get_supported_platforms(&OS::Windows),
        vec!["Steam", "DRM Free", "Epic Games Store (EGS)", "PC Game Pass", "EA Desktop"]
    );
}

#[test]
fn import_base_is_taken_from_the_schema() {
    let found = base("titanfall2");
    assert_eq!(found.game_id, "titanfall2");
    assert_eq!(found.game_def.meta.display_name, "Titanfall 2");
    assert_eq!(found.overrides, ImportOverrides::new());
    assert_eq!(found.wine_prefix, None);
    assert_eq!(
        ImportBase::new("unknown", schema()),
        Err(Error::InvalidGameId("unknown".to_string()))
    );
    assert!(schema().find_game("lonely").is_some());
    assert!(schema().find_game("Lonely").is_none());
}

#[test]
fn import_base_takes_overrides() {
    let overrides = ImportOverrides {
        custom_name: Some("My Game".to_string()),
        custom_id: None,
        custom_exe: None,
        game_dir: Some("/games/x".to_string()),
    };
    let changed = base("lonely").with_overrides(overrides).with_wine_prefix(Some("/wine".to_string()));
    assert_eq!(changed.overrides.custom_name, Some("My Game".to_string()));
    assert_eq!(changed.overrides.game_dir, Some("/games/x".to_string()));
    assert_eq!(changed.wine_prefix, Some("/wine".to_string()));
    assert_eq!(changed.game_id, "lonely");
}

#[test]
fn importer_of_the_first_supported_platform_is_chosen() {
    let ror2 = base("riskofrain2");
    assert!(ror2.has_steam_numbers());
    match select_importer(&ror2) {
        Ok(Importer::Steam(steam)) => assert_eq!(steam.app_id(), 632360),
        other => panic!("unexpected importer {:?}", other),
    }
    let titanfall = base("titanfall2");
    assert!(matches!(select_importer(&titanfall), Ok(Importer::Ea(_))));
    assert_eq!(
        select_importer(&base("lonely")),
        Err(Error::NotSupported("lonely".to_string(), String::new()))
    );
}

#[test]
fn steam_names_must_be_numbers() {
    assert!(SteamImporter::is_app_id("632360"));
    assert!(SteamImporter::is_app_id("0"));
    assert!(!SteamImporter::is_app_id(""));
    assert!(!SteamImporter::is_app_id("ror2"));
    assert!(!SteamImporter::is_app_id("99999999999"));
    let mut def = base("riskofrain2");
    def.game_def.distributions.push(GameDefPlatform::SteamDirect { identifier: "abc".to_string() });
    assert!(!def.has_steam_numbers());
}

#[test]
fn game_record_prefers_what_was_set() {
    let plain = construct_data(base("riskofrain2"), dist("/g"));
    assert_eq!(plain.identifier, "riskofrain2");
    assert_eq!(plain.ecosystem_label, "riskofrain2");
    assert_eq!(plain.display_name, "Risk of Rain 2");
    assert_eq!(plain.active_distribution, dist("/g"));
    assert_eq!(plain.possible_distributions.len(), 3);
    let overrides = ImportOverrides {
        custom_name: Some("Rainy".to_string()),
        custom_id: Some("ror2-copy".to_string()),
        custom_exe: None,
        game_dir: None,
    };
    let named = construct_data(base("riskofrain2").with_overrides(overrides), dist("/g"));
    assert_eq!(named.identifier, "ror2-copy");
    assert_eq!(named.display_name, "Rainy");
    assert_eq!(named.ecosystem_label, "riskofrain2");
}

#[test]
fn executable_is_the_first_that_exists() {
    let names = r2mm().exe_names;
    assert_eq!(
        find_game_exe(&names, "/games/ror2", &vec![false, true]),
        Some("/games/ror2/ror2.x86_64".to_string())
    );
    assert_eq!(
        find_game_exe(&names, "/games/ror2", &vec![true, true]),
        Some("/games/ror2/Risk of Rain 2.exe".to_string())
    );
    assert_eq!(find_game_exe(&names, "/games/ror2", &vec![false, false]), None);
    assert_eq!(find_game_exe(&names, "/games/ror2", &vec![]), None);
}

#[test]
fn ea_game_is_imported_from_its_directory() {
    let ea = EaImporter::new("Respawn.Titanfall2");
    assert_eq!(ea.registry_subkey(), "Software\\Respawn\\Titanfall2\\");
    let data = ea
        .construct(base("titanfall2"), "C:/Games/TF2".to_string(), Some("C:/Games/TF2/tf2.exe".to_string()))
        .unwrap();
    assert_eq!(
        data.active_distribution,
        ActiveDistribution {
            dist: GameDefPlatform::Origin { identifier: "Respawn.Titanfall2".to_string() },
            game_dir: "C:/Games/TF2".to_string(),
            data_dir: "C:/Games/TF2/Risk of Rain 2_Data".to_string(),
            exe_path: "C:/Games/TF2/tf2.exe".to_string(),
        }
    );
    let missing = EaImporter::new("Respawn.Titanfall2").construct(
        base("titanfall2"),
        "C:/Games/TF2".to_string(),
        None,
    );
    assert_eq!(
        missing,
        Err(Error::ExeNotFound("titanfall2".to_string(), "C:/Games/TF2".to_string()))
    );
}

#[test]
fn executable_set_by_hand_comes_first() {
    let overrides = ImportOverrides {
        custom_name: None,
        custom_id: None,
        custom_exe: Some("/opt/custom.exe".to_string()),
        game_dir: None,
    };
    let data = EgsImporter::new("abc")
        .construct(
            base("riskofrain2").with_overrides(overrides),
            "/games/ror2".to_string(),
            Some("/games/ror2/found.exe".to_string()),
        )
        .unwrap();
    assert_eq!(data.active_distribution.exe_path, "/opt/custom.exe");
    assert_eq!(data.active_distribution.dist, GameDefPlatform::Other);
}

#[test]
fn egs_game_is_found_by_its_manifest() {
    let egs = EgsImporter::new("wanted");
    assert_eq!(EgsImporter::manifests_dir("C:/ProgramData/Epic"), "C:/ProgramData/Epic/Manifests");
    let manifests = vec![
        PartialInstallManifest { install_location: "D:/other".to_string(), app_name: "other".to_string() },
        PartialInstallManifest { install_location: "D:/wanted".to_string(), app_name: "wanted".to_string() },
        PartialInstallManifest { install_location: "D:/again".to_string(), app_name: "wanted".to_string() },
    ];
    assert_eq!(egs.find_install_location(&manifests, "riskofrain2"), Ok("D:/wanted".to_string()));
    let others = vec![PartialInstallManifest {
        install_location: "D:/other".to_string(),
        app_name: "other".to_string(),
    }];
    assert_eq!(
        egs.find_install_location(&others, "riskofrain2"),
        Err(Error::NotFound("riskofrain2".to_string(), "EGS".to_string()))
    );
}

#[test]
fn gamepass_game_is_found_in_the_package_list() {
    let gamepass = GamepassImporter::new("Hopoo.RiskOfRain2");
    assert_eq!(
        GamepassImporter::packages_subkey(),
        "Software\\Microsoft\\GamingServices\\PackageRepository\\Package\\"
    );
    let values = vec![
        RegKeyVal { key: "Other.Game_1.0".to_string(), val: "\"1111\"".to_string() },
        RegKeyVal { key: "Hopoo.RiskOfRain2_1.2.3_x64".to_string(), val: "\"abcd-1234\"".to_string() },
    ];
    assert_eq!(gamepass.find_package_uuid(&values, "riskofrain2"), Ok("abcd-1234".to_string()));
    assert_eq!(
        gamepass.find_package_uuid(&vec![], "riskofrain2"),
        Err(Error::NotFound("riskofrain2".to_string(), "Gamepass".to_string()))
    );
    assert_eq!(GamepassImporter::root_subkey("abcd-1234"), "Root\\abcd-1234\\");
    let data = gamepass
        .construct(base("riskofrain2"), "C:/XboxGames/ror2".to_string(), Some("x.exe".to_string()))
        .unwrap();
    assert_eq!(
        data.active_distribution.dist,
        GameDefPlatform::GamePass { identifier: "Hopoo.RiskOfRain2".to_string() }
    );
}

#[test]
fn game_without_launcher_needs_its_directory() {
    let importer = NoDrmImporter::new("/games/ror2");
    assert_eq!(importer.directory(), "/games/ror2");
    assert_eq!(
        importer.construct(base("riskofrain2"), false, Some("x".to_string())),
        Err(Error::DirNotFound("/games/ror2".to_string()))
    );
    let data = NoDrmImporter::new("/games/ror2")
        .construct(base("riskofrain2"), true, Some("/games/ror2/ror2.x86_64".to_string()))
        .unwrap();
    assert_eq!(data.active_distribution.game_dir, "/games/ror2");
    assert_eq!(data.active_distribution.data_dir, "/games/ror2/Risk of Rain 2_Data");
    assert_eq!(
        NoDrmImporter::new("/games/ror2").construct(base("riskofrain2"), true, None),
        Err(Error::ExeNotFound("riskofrain2".to_string(), "/games/ror2".to_string()))
    );
}

#[test]
fn steam_game_is_imported_from_its_directory() {
    let steam = SteamImporter::new("632360").with_steam_dir(Some("/steam".to_string()));
    assert_eq!(steam.app_id(), 632360);
    assert_eq!(steam.library(), &Some("/steam".to_string()));
    let overrides = ImportOverrides {
        custom_name: None,
        custom_id: None,
        custom_exe: Some("/ignored.exe".to_string()),
        game_dir: None,
    };
    let data = steam
        .construct(
            base("riskofrain2").with_overrides(overrides),
            "/steam/common/ror2".to_string(),
            true,
            Some("/steam/common/ror2/ror2.x86_64".to_string()),
        )
        .unwrap();
    assert_eq!(
        data.active_distribution.dist,
        GameDefPlatform::Steam { identifier: "632360".to_string() }
    );
    assert_eq!(data.active_distribution.exe_path, "/steam/common/ror2/ror2.x86_64");
    assert_eq!(
        SteamImporter::new("632360").construct(base("riskofrain2"), "/nowhere".to_string(), false, None),
        Err(Error::SteamDirNotFound)
    );
    assert!(matches!(
        SteamImporter::new("632360").construct(base("riskofrain2"), "/steam/x".to_string(), true, None),
        Err(Error::ExeNotFound(_, _))
    ));
}

#[test]
fn registry_holds_each_game_once() {
    let mut registry: Vec<GameData> = Vec::new();
    let first = construct_data(base("riskofrain2"), dist("/a"));
    let same = construct_data(base("riskofrain2"), dist("/a"));
    let moved = construct_data(base("riskofrain2"), dist("/b"));
    assert!(write_data(&mut registry, first));
    assert!(!write_data(&mut registry, same));
    assert!(write_data(&mut registry, moved));
    assert_eq!(registry.len(), 2);
    assert!(get_game_data(Vec::new(), "riskofrain2").is_none());
    assert_eq!(get_game_data(registry, "riskofrain2").unwrap().active_distribution, dist("/a"));
    let other = vec![construct_data(base("titanfall2"), dist("/t"))];
    assert!(get_game_data(other, "riskofrain2").is_none());
}

#[test]
fn games_are_searched_by_pattern() {
    let schema = schema();
    assert_eq!(schema.search("*"), vec![0, 1, 2]);
    assert_eq!(schema.search("Risk*"), vec![0]);
    assert_eq!(schema.search("titanfall?"), vec![1]);
    assert_eq!(schema.search("*Game"), vec![2]);
    assert_eq!(schema.search("risk"), Vec::<usize>::new());
    assert_eq!(schema.search("*o*"), vec![0, 2]);
}

#[test]
fn name_on_a_platform_is_found_by_the_platform_name() {
    let def = base("riskofrain2").game_def;
    assert_eq!(def.ident_on("steam"), Some("632360".to_string()));
    assert_eq!(def.ident_on("epic-games-store"), Some("4b3dcc5723454594afa5fa5f5c1bdf24".to_string()));
    assert_eq!(def.ident_on("origin"), None);
    assert_eq!(def.ident_on("other"), None);
    assert_eq!(def.ident_on("nodrm"), None);
    let steam = GameDefPlatform::Steam { identifier: "1".to_string() };
    assert_eq!(steam.ident_from_name("steam"), Some("1".to_string()));
    assert_eq!(steam.ident_from_name("steam-direct"), None);
    assert_eq!(GameDefPlatform::Other.ident_from_name("other"), None);
    assert_eq!(steam.duplicate(), steam);
}
