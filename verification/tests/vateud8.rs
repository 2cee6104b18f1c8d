use vatsim_open_data::vateud8::{Error, Vateud8Data, Vateud8Position};
use vatsim_open_data::{Config, FirConfig, OpenData, Position, StationType, Vateud8Config, FIR};

fn position(frequency: u32, prefix: &str) -> Position {
    Position {
        frequency,
        prefix: prefix.to_string(),
        station_type: StationType::Approach,
        name: None,
        radio_callsign: "Director".to_string(),
        cpdlc_logon: None,
        airspace_groups: vec![],
        gcap_tier: None,
    }
}

fn registry_entry(region: u32, name: &str, frequency: u32, prefix: &str) -> Vateud8Position {
    Vateud8Position {
        region,
        name: name.to_string(),
        callsign: format!("{name} Callsign"),
        frequency,
        prefix: prefix.to_string(),
        updated_at: None,
    }
}

fn dataset_with(fir_config: FirConfig, positions: Vec<(String, Position)>) -> OpenData {
    OpenData {
        firs: vec![(
            "EDMM".to_string(),
            FIR {
                positions,
                ..Default::default()
            },
        )],
        config: Config {
            vateud8: Vateud8Config::default(),
            firs: vec![("EDMM".to_string(), fir_config)],
        },
    }
}

fn configured(region: u32) -> FirConfig {
    FirConfig {
        vateud8_region: Some(region),
        vateud8_ignore: vec![],
        optional_frequency: false,
    }
}

#[test]
fn reconcile_region_mismatch() {
    let open_data = dataset_with(
        configured(9),
        vec![("DMSD".to_string(), position(132_305_000, "EDDM"))],
    );
    // matches by frequency and prefix, but sits in registry region 8
    let registry = Vateud8Data {
        positions: vec![registry_entry(8, "EDDM_APP", 132_305_000, "EDD")],
    };
    let errs = registry.check(&open_data).unwrap_err();
    assert_eq!(
        errs,
        vec![
            Error::RegionMismatch("EDMM".to_string(), "DMSD".to_string(), 8, 9),
            Error::Superfluous("EDDM_APP".to_string()),
        ]
    );
}

#[test]
fn reconcile_not_found() {
    let open_data = dataset_with(
        configured(9),
        vec![("DMSD".to_string(), position(132_305_000, "EDDM"))],
    );
    let registry = Vateud8Data { positions: vec![] };
    let errs = registry.check(&open_data).unwrap_err();
    assert_eq!(
        errs,
        vec![Error::NotFound("EDMM".to_string(), "DMSD".to_string())]
    );
}

#[test]
fn reconcile_match_by_prefix_is_clean() {
    let open_data = dataset_with(
        configured(9),
        vec![("DMSD".to_string(), position(132_305_000, "EDDM"))],
    );
    // registry prefix "EDD" is non-empty and a prefix of "EDDM"
    let registry = Vateud8Data {
        positions: vec![registry_entry(9, "XXXX_APP", 132_305_000, "EDD")],
    };
    assert!(registry.check(&open_data).is_ok());
}

#[test]
fn reconcile_match_by_name_segment_is_clean() {
    let open_data = dataset_with(
        configured(9),
        vec![("DMSD".to_string(), position(132_305_000, "EDD"))],
    );
    // empty registry prefix; "EDD" is a prefix of "EDDM" (name before '_')
    let registry = Vateud8Data {
        positions: vec![registry_entry(9, "EDDM_APP", 132_305_000, "")],
    };
    assert!(registry.check(&open_data).is_ok());
}

#[test]
fn reconcile_first_match_wins() {
    let open_data = dataset_with(
        configured(9),
        vec![("DMSD".to_string(), position(132_305_000, "EDDM"))],
    );
    // the first matching list entry decides, even though the second one
    // would sit in the expected region
    let registry = Vateud8Data {
        positions: vec![
            registry_entry(8, "EDDM_APP", 132_305_000, "EDD"),
            registry_entry(9, "EDDM_DEP", 132_305_000, "EDD"),
        ],
    };
    let errs = registry.check(&open_data).unwrap_err();
    assert_eq!(
        errs,
        vec![
            Error::RegionMismatch("EDMM".to_string(), "DMSD".to_string(), 8, 9),
            // no region is configured with registry region 8, so the first
            // entry is an orphan as well
            Error::Superfluous("EDDM_APP".to_string()),
        ]
    );
}

#[test]
fn reconcile_unconfigured_region_not_looked_up() {
    let open_data = OpenData {
        firs: vec![(
            "EDMM".to_string(),
            FIR {
                positions: vec![("DMSD".to_string(), position(132_305_000, "EDDM"))],
                ..Default::default()
            },
        )],
        // no configuration entry for EDMM at all
        ..Default::default()
    };
    let registry = Vateud8Data { positions: vec![] };
    assert!(registry.check(&open_data).is_ok());
}

#[test]
fn reconcile_exempt_position_is_silent() {
    let open_data = dataset_with(
        FirConfig {
            vateud8_region: Some(9),
            vateud8_ignore: vec!["DMSD".to_string()],
            optional_frequency: false,
        },
        vec![("DMSD".to_string(), position(132_305_000, "EDDM"))],
    );
    // no registry entry matches, but the position is exempt
    let registry = Vateud8Data { positions: vec![] };
    assert!(registry.check(&open_data).is_ok());
}

#[test]
fn reconcile_superfluous_external_entry() {
    let open_data = dataset_with(configured(9), vec![]);
    let registry = Vateud8Data {
        positions: vec![registry_entry(9, "EDDM_TWR", 118_700_000, "EDDM")],
    };
    let errs = registry.check(&open_data).unwrap_err();
    assert_eq!(errs, vec![Error::Superfluous("EDDM_TWR".to_string())]);
}

#[test]
fn reconcile_atis_suffix_is_silent() {
    let open_data = dataset_with(configured(9), vec![]);
    let registry = Vateud8Data {
        positions: vec![registry_entry(9, "EDDM_ATIS", 123_130_000, "EDDM")],
    };
    assert!(registry.check(&open_data).is_ok());
}

#[test]
fn reconcile_ignored_region_is_silent() {
    let open_data = OpenData {
        firs: vec![],
        config: Config {
            vateud8: Vateud8Config {
                ignore_regions: vec![77],
                ignore_extra: vec![],
            },
            firs: vec![],
        },
    };
    let registry = Vateud8Data {
        positions: vec![registry_entry(77, "LOWI_TWR", 120_100_000, "LOWI")],
    };
    assert!(registry.check(&open_data).is_ok());
}

#[test]
fn reconcile_ignored_name_is_silent() {
    let open_data = OpenData {
        firs: vec![],
        config: Config {
            vateud8: Vateud8Config {
                ignore_regions: vec![],
                ignore_extra: vec!["LOWI_TWR".to_string()],
            },
            firs: vec![],
        },
    };
    let registry = Vateud8Data {
        positions: vec![registry_entry(77, "LOWI_TWR", 120_100_000, "LOWI")],
    };
    assert!(registry.check(&open_data).is_ok());
}

#[test]
fn reconcile_twice_is_identical() {
    let open_data = dataset_with(
        configured(9),
        vec![
            ("DMSD".to_string(), position(132_305_000, "EDDM")),
            ("DMNH".to_string(), position(123_900_000, "EDMO")),
        ],
    );
    let registry = Vateud8Data {
        positions: vec![
            registry_entry(8, "EDDM_APP", 132_305_000, "EDD"),
            registry_entry(9, "EDNX_TWR", 130_800_000, "EDNX"),
        ],
    };
    let first = registry.check(&open_data);
    let second = registry.check(&open_data);
    assert_eq!(first.unwrap_err(), second.unwrap_err());
}

#[test]
fn empty_registry_and_dataset_are_clean() {
    let open_data = OpenData::default();
    let registry = Vateud8Data::default();
    assert!(registry.check(&open_data).is_ok());
}
