use vatsim_open_data::{
    Airport, Config, ConstraintError, Error, InvalidPositionReferenceType, OpenData, Position,
    PositionReference, Sector, StationType, Volume, FIR,
};

fn position(frequency: u32, prefix: &str, station_type: StationType, callsign: &str) -> Position {
    Position {
        frequency,
        prefix: prefix.to_string(),
        station_type,
        name: None,
        radio_callsign: callsign.to_string(),
        cpdlc_logon: None,
        airspace_groups: vec![],
        gcap_tier: None,
    }
}

#[test]
fn test_pos_dupe() {
    let open_data = OpenData {
        firs: vec![
            (
                "TEST".to_string(),
                FIR {
                    positions: vec![(
                        "POS1".to_string(),
                        Position {
                            frequency: 134_150_000,
                            prefix: "EDMM".to_string(),
                            station_type: StationType::Center,
                            radio_callsign: "Test Radar".to_string(),
                            name: None,
                            cpdlc_logon: None,
                            airspace_groups: vec![],
                            gcap_tier: None,
                        },
                    )],
                    ..Default::default()
                },
            ),
            (
                "AAAA".to_string(),
                FIR {
                    positions: vec![(
                        "POS2".to_string(),
                        Position {
                            frequency: 134_150_000,
                            prefix: "EDM".to_string(),
                            station_type: StationType::Center,
                            radio_callsign: "Aahh Radar".to_string(),
                            name: None,
                            cpdlc_logon: None,
                            airspace_groups: vec![],
                            gcap_tier: None,
                        },
                    )],
                    ..Default::default()
                },
            ),
            (
                "EDMM".to_string(),
                FIR {
                    positions: vec![
                        (
                            "DMSD".to_string(),
                            Position {
                                frequency: 132_305_000,
                                prefix: "EDDM".to_string(),
                                station_type: StationType::Approach,
                                radio_callsign: "München Director".to_string(),
                                name: Some("München Director South".to_string()),
                                cpdlc_logon: None,
                                airspace_groups: vec![],
                                gcap_tier: None,
                            },
                        ),
                        (
                            "DMSE".to_string(),
                            Position {
                                frequency: 132_305_000,
                                prefix: "ED".to_string(),
                                station_type: StationType::Approach,
                                radio_callsign: "München Director".to_string(),
                                name: Some("München Director South".to_string()),
                                cpdlc_logon: None,
                                airspace_groups: vec![],
                                gcap_tier: None,
                            },
                        ),
                    ],
                    ..Default::default()
                },
            ),
        ],
        ..Default::default()
    };

    let check_res = open_data.position_dupe_check();
    assert!(check_res.is_err());

    let err_vec = check_res.unwrap_err();
    println!("{err_vec:?}");
    assert_eq!(err_vec.len(), 2);

    match &err_vec[0] {
        Error::DuplicatePosition(fir1, pos1, fir2, pos2) => {
            assert_eq!(fir1, "EDMM");
            assert_eq!(pos1, "DMSD");
            assert_eq!(fir2, "EDMM");
            assert_eq!(pos2, "DMSE");
        }
        _ => unreachable!("must be duplicate position"),
    }

    match &err_vec[1] {
        Error::DuplicatePosition(fir1, pos1, fir2, pos2) => {
            assert_eq!(fir1, "TEST");
            assert_eq!(pos1, "POS1");
            assert_eq!(fir2, "AAAA");
            assert_eq!(pos2, "POS2");
        }
        _ => unreachable!("must be duplicate position"),
    }
}

#[test]
fn test_pos_ref() {
    let open_data = OpenData {
        firs: vec![
            (
                "TEST".to_string(),
                FIR {
                    positions: vec![(
                        "POS1".to_string(),
                        Position {
                            frequency: 134_150_000,
                            prefix: "EDMM".to_string(),
                            station_type: StationType::Center,
                            radio_callsign: "Test Radar".to_string(),
                            name: None,
                            cpdlc_logon: None,
                            airspace_groups: vec![],
                            gcap_tier: None,
                        },
                    )],
                    airports: vec![(
                        "CHEK".to_string(),
                        Airport {
                            name: "Check Airport".to_string(),
                            iata_designator: None,
                            elevation: None,
                            position_priority: vec![vec![
                                PositionReference {
                                    id: "POS1".to_string(),
                                    fir: None,
                                },
                                PositionReference {
                                    id: "POS1".to_string(),
                                    fir: Some("TEST".to_string()),
                                },
                                PositionReference {
                                    id: "POS1".to_string(),
                                    fir: Some("AAAA".to_string()),
                                },
                            ]],
                            runways: vec![],
                        },
                    )],
                    sectors: vec![(
                        "SEC1".to_string(),
                        Sector {
                            name: None,
                            position_priority: vec![vec![
                                PositionReference {
                                    id: "POS1".to_string(),
                                    fir: None,
                                },
                                PositionReference {
                                    id: "POS1".to_string(),
                                    fir: Some("TEST".to_string()),
                                },
                                PositionReference {
                                    id: "POS1".to_string(),
                                    fir: Some("AAAA".to_string()),
                                },
                            ]],
                            volumes: vec![],
                            runway_filter: vec![],
                        },
                    )],
                    ..Default::default()
                },
            ),
            (
                "AAAA".to_string(),
                FIR {
                    airports: vec![(
                        "ABCD".to_string(),
                        Airport {
                            name: "Alphabet Airport".to_string(),
                            iata_designator: None,
                            elevation: None,
                            position_priority: vec![vec![
                                PositionReference {
                                    id: "POS1".to_string(),
                                    fir: None,
                                },
                                PositionReference {
                                    id: "POS1".to_string(),
                                    fir: Some("TEST".to_string()),
                                },
                                PositionReference {
                                    id: "POS2".to_string(),
                                    fir: Some("TEST".to_string()),
                                },
                            ]],
                            runways: vec![],
                        },
                    )],
                    sectors: vec![(
                        "ABC".to_string(),
                        Sector {
                            name: None,
                            position_priority: vec![vec![
                                PositionReference {
                                    id: "POS1".to_string(),
                                    fir: None,
                                },
                                PositionReference {
                                    id: "POS1".to_string(),
                                    fir: Some("TEST".to_string()),
                                },
                                PositionReference {
                                    id: "POS2".to_string(),
                                    fir: Some("TEST".to_string()),
                                },
                            ]],
                            volumes: vec![],
                            runway_filter: vec![],
                        },
                    )],
                    ..Default::default()
                },
            ),
        ],
        ..Default::default()
    };

    let check_res = open_data.position_ref_check();
    assert!(check_res.is_err());

    let err_vec = check_res.unwrap_err();
    println!("{err_vec:?}");
    assert_eq!(err_vec.len(), 6);

    match &err_vec[0] {
        Error::InvalidPositionReference(
            InvalidPositionReferenceType::Sector,
            fir1,
            sec,
            fir2,
            pos,
        ) => {
            assert_eq!(fir1, "AAAA");
            assert_eq!(sec, "ABC");
            assert_eq!(fir2, "AAAA");
            assert_eq!(pos, "POS1");
        }
        _ => unreachable!("must be invalid position reference"),
    }
    match &err_vec[1] {
        Error::InvalidPositionReference(
            InvalidPositionReferenceType::Sector,
            fir1,
            sec,
            fir2,
            pos,
        ) => {
            assert_eq!(fir1, "AAAA");
            assert_eq!(sec, "ABC");
            assert_eq!(fir2, "TEST");
            assert_eq!(pos, "POS2");
        }
        _ => unreachable!("must be invalid position reference"),
    }
    match &err_vec[2] {
        Error::InvalidPositionReference(
            InvalidPositionReferenceType::Sector,
            fir1,
            sec,
            fir2,
            pos,
        ) => {
            assert_eq!(fir1, "TEST");
            assert_eq!(sec, "SEC1");
            assert_eq!(fir2, "AAAA");
            assert_eq!(pos, "POS1");
        }
        _ => unreachable!("must be invalid position reference"),
    }

    match &err_vec[3] {
        Error::InvalidPositionReference(
            InvalidPositionReferenceType::Airport,
            fir1,
            airport,
            fir2,
            pos,
        ) => {
            assert_eq!(fir1, "AAAA");
            assert_eq!(airport, "ABCD");
            assert_eq!(fir2, "AAAA");
            assert_eq!(pos, "POS1");
        }
        _ => unreachable!("must be invalid position reference"),
    }
    match &err_vec[4] {
        Error::InvalidPositionReference(
            InvalidPositionReferenceType::Airport,
            fir1,
            airport,
            fir2,
            pos,
        ) => {
            assert_eq!(fir1, "AAAA");
            assert_eq!(airport, "ABCD");
            assert_eq!(fir2, "TEST");
            assert_eq!(pos, "POS2");
        }
        _ => unreachable!("must be invalid position reference"),
    }
    match &err_vec[5] {
        Error::InvalidPositionReference(
            InvalidPositionReferenceType::Airport,
            fir1,
            airport,
            fir2,
            pos,
        ) => {
            assert_eq!(fir1, "TEST");
            assert_eq!(airport, "CHEK");
            assert_eq!(fir2, "AAAA");
            assert_eq!(pos, "POS1");
        }
        _ => unreachable!("must be invalid position reference"),
    }
}

#[test]
fn volume_lower_greater_exactly() {
    let v = Volume {
        lower_level: 10,
        upper_level: 5,
    };
    let errs = v.check_level().unwrap_err();
    assert_eq!(errs, vec![ConstraintError::LowerLevelGreater]);
}

#[test]
fn volume_upper_too_high_exactly() {
    let v = Volume {
        lower_level: 0,
        upper_level: 1000,
    };
    let errs = v.check_level().unwrap_err();
    assert_eq!(errs, vec![ConstraintError::UpperLevelMaximum]);
}

#[test]
fn volume_both_above_limit_upper_only() {
    let v = Volume {
        lower_level: 1000,
        upper_level: 1005,
    };
    let errs = v.check_level().unwrap_err();
    assert_eq!(errs, vec![ConstraintError::UpperLevelMaximum]);
}

#[test]
fn volume_both_constraints_fire() {
    let v = Volume {
        lower_level: 1005,
        upper_level: 1000,
    };
    let errs = v.check_level().unwrap_err();
    assert_eq!(
        errs,
        vec![
            ConstraintError::LowerLevelGreater,
            ConstraintError::UpperLevelMaximum
        ]
    );
}

#[test]
fn volume_check_empty_for_valid_volumes() {
    let open_data = OpenData {
        firs: vec![(
            "EDMM".to_string(),
            FIR {
                volumes: vec![
                    ("A1".to_string(), Volume { lower_level: 0, upper_level: 999 }),
                    ("B2".to_string(), Volume { lower_level: 100, upper_level: 245 }),
                    ("C3".to_string(), Volume { lower_level: 998, upper_level: 999 }),
                ],
                ..Default::default()
            },
        )],
        ..Default::default()
    };
    assert!(open_data.run_checks().is_ok());
}

#[test]
fn fir_run_checks_sorted_and_exhaustive() {
    let fir = FIR {
        volumes: vec![
            ("ZZZ".to_string(), Volume { lower_level: 20, upper_level: 10 }),
            ("AAA".to_string(), Volume { lower_level: 0, upper_level: 1200 }),
            ("MMM".to_string(), Volume { lower_level: 5, upper_level: 9 }),
        ],
        ..Default::default()
    };
    let errs = fir.run_checks().unwrap_err();
    assert_eq!(
        errs,
        vec![
            ("AAA".to_string(), ConstraintError::UpperLevelMaximum),
            ("ZZZ".to_string(), ConstraintError::LowerLevelGreater),
        ]
    );
}

#[test]
fn run_checks_concatenates_in_order() {
    // one bad volume, one duplicate pair, one bad reference
    let open_data = OpenData {
        firs: vec![(
            "EDMM".to_string(),
            FIR {
                volumes: vec![("V1".to_string(), Volume { lower_level: 50, upper_level: 30 })],
                positions: vec![
                    (
                        "P1".to_string(),
                        position(122_800_000, "EDDM", StationType::Tower, "München Turm"),
                    ),
                    (
                        "P2".to_string(),
                        position(122_800_000, "EDDM", StationType::Tower, "München Turm"),
                    ),
                ],
                sectors: vec![(
                    "S1".to_string(),
                    Sector {
                        name: None,
                        position_priority: vec![vec![PositionReference {
                            id: "NOPE".to_string(),
                            fir: None,
                        }]],
                        volumes: vec![],
                        runway_filter: vec![],
                    },
                )],
                ..Default::default()
            },
        )],
        ..Default::default()
    };
    let errs = open_data.run_checks().unwrap_err();
    assert_eq!(errs.len(), 4);
    assert!(matches!(&errs[0], Error::InvalidVolume(f, v, ConstraintError::LowerLevelGreater)
        if f == "EDMM" && v == "V1"));
    // the two equal prefixes collide in both directions
    assert!(matches!(&errs[1], Error::DuplicatePosition(f1, p1, f2, p2)
        if f1 == "EDMM" && p1 == "P1" && f2 == "EDMM" && p2 == "P2"));
    assert!(matches!(&errs[2], Error::DuplicatePosition(f1, p1, f2, p2)
        if f1 == "EDMM" && p1 == "P2" && f2 == "EDMM" && p2 == "P1"));
    assert!(matches!(&errs[3], Error::InvalidPositionReference(
        InvalidPositionReferenceType::Sector, f1, s, f2, p)
        if f1 == "EDMM" && s == "S1" && f2 == "EDMM" && p == "NOPE"));
}

#[test]
fn dupe_check_requires_same_station_type() {
    let open_data = OpenData {
        firs: vec![(
            "EDMM".to_string(),
            FIR {
                positions: vec![
                    (
                        "P1".to_string(),
                        position(122_800_000, "EDDM", StationType::Tower, "München Turm"),
                    ),
                    (
                        "P2".to_string(),
                        position(122_800_000, "EDDM", StationType::Ground, "München Boden"),
                    ),
                ],
                ..Default::default()
            },
        )],
        ..Default::default()
    };
    assert!(open_data.position_dupe_check().is_ok());
}

#[test]
fn validate_twice_is_identical() {
    let open_data = OpenData {
        firs: vec![(
            "EDMM".to_string(),
            FIR {
                volumes: vec![("V1".to_string(), Volume { lower_level: 50, upper_level: 30 })],
                positions: vec![
                    (
                        "P1".to_string(),
                        position(122_800_000, "EDDM", StationType::Tower, "München Turm"),
                    ),
                    (
                        "P2".to_string(),
                        position(122_800_000, "ED", StationType::Tower, "München Turm"),
                    ),
                ],
                ..Default::default()
            },
        )],
        ..Default::default()
    };
    let first = open_data.run_checks();
    let second = open_data.run_checks();
    assert_eq!(first.unwrap_err(), second.unwrap_err());
}

#[test]
fn empty_dataset_is_consistent() {
    let open_data = OpenData::default();
    assert!(open_data.run_checks().is_ok());
    assert!(open_data.position_dupe_check().is_ok());
    assert!(open_data.position_ref_check().is_ok());
}
