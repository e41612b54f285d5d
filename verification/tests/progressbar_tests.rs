use monb::progressbar::{
    create_arrow_progressbar, create_classic_progressbar, create_filled_progressbar,
    create_progressbar, create_wsl_arrow_progressbar, create_wsl_progressbar,
    parse_progressbar_info, parse_progressbar_length, ProgressBarErrorKind, ProgressBarInfo,
    ProgressBarType,
};

#[test]
fn classic_at_half_brightness() {
    assert_eq!(create_classic_progressbar(50, 20), "[==========          ] 50%");
}

#[test]
fn classic_at_the_edges() {
    assert_eq!(create_classic_progressbar(0, 10), "[          ] 0%");
    assert_eq!(create_classic_progressbar(100, 10), "[==========] 100%");
}

#[test]
fn arrow_full_bar_has_no_marker() {
    assert_eq!(create_arrow_progressbar(100, 20), "[====================] 100%");
}

#[test]
fn arrow_empty_bar_has_no_marker() {
    assert_eq!(create_arrow_progressbar(0, 20), "[                    ] 0%");
}

#[test]
fn arrow_replaces_the_last_fill_character() {
    assert_eq!(create_arrow_progressbar(50, 20), "[=========>          ] 50%");
}

#[test]
fn filled_uses_solid_blocks() {
    assert_eq!(create_filled_progressbar(50, 10), "\u{a6}\u{2588}\u{2588}\u{2588}\u{2588}\u{2588}     \u{a6} 50%");
}

#[test]
fn wsl_centers_the_percentage() {
    assert_eq!(create_wsl_progressbar(50, 20), "[========50%         ]");
    assert_eq!(create_wsl_progressbar(100, 10), "[===100%===]");
}

#[test]
fn wsl_arrow_keeps_the_marker_outside_the_text() {
    assert_eq!(create_wsl_arrow_progressbar(40, 20), "[=======>40%         ]");
}

#[test]
fn wsl_at_minimal_width_and_zero_brightness() {
    assert_eq!(create_wsl_progressbar(0, 10), "[    0%    ]");
    assert_eq!(create_wsl_arrow_progressbar(0, 10), "[    0%    ]");
}

#[test]
fn dispatch_matches_each_style() {
    let info = ProgressBarInfo { _type: ProgressBarType::Classic, length: 20 };
    assert_eq!(create_progressbar(50, &info), create_classic_progressbar(50, 20));
    let info = ProgressBarInfo { _type: ProgressBarType::Arrow, length: 20 };
    assert_eq!(create_progressbar(50, &info), create_arrow_progressbar(50, 20));
    let info = ProgressBarInfo { _type: ProgressBarType::WSL, length: 20 };
    assert_eq!(create_progressbar(50, &info), create_wsl_progressbar(50, 20));
    let info = ProgressBarInfo { _type: ProgressBarType::WSLArrow, length: 20 };
    assert_eq!(create_progressbar(50, &info), create_wsl_arrow_progressbar(50, 20));
    let info = ProgressBarInfo { _type: ProgressBarType::Filled, length: 20 };
    assert_eq!(create_progressbar(50, &info), create_filled_progressbar(50, 20));
}

#[test]
fn length_option_defaults_and_clamps() {
    assert_eq!(parse_progressbar_length(None).unwrap(), 20);
    assert_eq!(parse_progressbar_length(Some(&"5".to_string())).unwrap(), 10);
    assert_eq!(parse_progressbar_length(Some(&"1000".to_string())).unwrap(), 200);
    assert_eq!(parse_progressbar_length(Some(&"50".to_string())).unwrap(), 50);
    assert_eq!(parse_progressbar_length(Some(&"+30".to_string())).unwrap(), 30);
}

#[test]
fn length_option_rejects_bad_text() {
    let e = parse_progressbar_length(Some(&"abc".to_string())).unwrap_err();
    assert_eq!(e.kind, ProgressBarErrorKind::LengthInvalid);
    assert_eq!(e.message(), "Invalid progressbar length: abc");
    let e = parse_progressbar_length(Some(&"99999999999999999999999999".to_string())).unwrap_err();
    assert_eq!(e.kind, ProgressBarErrorKind::LengthTooBig);
}

#[test]
fn style_option_defaults_and_matches_loosely() {
    assert_eq!(ProgressBarType::try_from_str(None).unwrap(), ProgressBarType::WSLArrow);
    assert_eq!(
        ProgressBarType::try_from_str(Some(&"classic".to_string())).unwrap(),
        ProgressBarType::Classic
    );
    assert_eq!(
        ProgressBarType::try_from_str(Some(&" WSL ".to_string())).unwrap(),
        ProgressBarType::WSL
    );
    assert_eq!(
        ProgressBarType::try_from_str(Some(&"WSL_Arrow".to_string())).unwrap(),
        ProgressBarType::WSLArrow
    );
    assert_eq!(
        ProgressBarType::try_from_str(Some(&"filled".to_string())).unwrap(),
        ProgressBarType::Filled
    );
    assert_eq!(
        ProgressBarType::try_from_str(Some(&"arrow".to_string())).unwrap(),
        ProgressBarType::Arrow
    );
}

#[test]
fn style_option_rejects_unknown_names() {
    let e = ProgressBarType::try_from_str(Some(&"bogus".to_string())).unwrap_err();
    assert_eq!(e.kind, ProgressBarErrorKind::StyleInvalid);
    assert_eq!(e.message(), "Invalid progress bar type: `bogus`");
}

#[test]
fn style_names_round_trip() {
    for t in [
        ProgressBarType::Classic,
        ProgressBarType::Arrow,
        ProgressBarType::WSL,
        ProgressBarType::WSLArrow,
        ProgressBarType::Filled,
    ] {
        let name = t.name_str().to_string();
        assert_eq!(ProgressBarType::try_from_str(Some(&name)).unwrap(), t);
    }
}

#[test]
fn info_combines_both_options() {
    let info = parse_progressbar_info(Some(&"30".to_string()), Some(&"arrow".to_string())).unwrap();
    assert_eq!(info.length, 30);
    assert_eq!(info._type, ProgressBarType::Arrow);
    let info = parse_progressbar_info(None, None).unwrap();
    assert_eq!(info.length, 20);
    assert_eq!(info._type, ProgressBarType::WSLArrow);
    let e = parse_progressbar_info(Some(&"x".to_string()), Some(&"arrow".to_string())).unwrap_err();
    assert_eq!(e.kind, ProgressBarErrorKind::LengthInvalid);
}
