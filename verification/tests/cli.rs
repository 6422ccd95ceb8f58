use anecho::cli::{generator, parse_level, parse_signal, CliError, GeneratorSyntax, LevelUnit, SignalSyntax};
use anecho::syntax::{chars_of, float_text, parse_u32, trim};

fn number(text: &str) -> f32 {
    text.parse::<f32>().unwrap()
}

#[test]
fn parses_levels_and_signals() {
    let l = parse_level("-20dBFS").unwrap();
    assert!(l.unit == LevelUnit::PeakDbfs && number(&l.value) == -20.0);
    let l = parse_level("-10 dBV").unwrap();
    assert!(l.unit == LevelUnit::DbvRms && number(&l.value) == -10.0);
    assert!(matches!(
        parse_signal("dual:60,7000").unwrap(),
        SignalSyntax::DualTone { f1, f2, .. } if number(&f1) == 60.0 && number(&f2) == 7000.0
    ));
    assert!(parse_signal("triangle:3").is_err());
}

#[test]
fn level_forms() {
    let l = parse_level("  -3.5  ").unwrap();
    assert!(l.unit == LevelUnit::PeakDbfs);
    assert_eq!(l.value, "-3.5");
    let l = parse_level("+4DBV").unwrap();
    assert!(l.unit == LevelUnit::DbvRms);
    assert_eq!(l.value, "+4");
    assert!(matches!(parse_level("-10 dBu"), Err(CliError::UnknownUnit(u)) if u == "dbu"));
    assert!(matches!(parse_level("loud"), Err(CliError::BadLevel(s)) if s == "loud"));
    assert!(matches!(parse_level("1e3dBV"), Err(CliError::UnknownUnit(u)) if u == "e3dbv"));
}

#[test]
fn signal_forms() {
    assert!(matches!(parse_signal("sine:1000"), Ok(SignalSyntax::Sine { hz }) if hz == "1000"));
    assert!(matches!(parse_signal(" square : 50 "), Ok(SignalSyntax::Square { hz }) if hz == "50"));
    assert!(matches!(
        parse_signal("dual:19000, 20000, 0"),
        Ok(SignalSyntax::DualTone { f1, f2, ratio_db: Some(r) }) if f1 == "19000" && f2 == "20000" && r == "0"
    ));
    assert!(matches!(parse_signal("dual:60"), Err(CliError::DualUsage)));
    assert!(matches!(parse_signal("sine:1,2"), Err(CliError::SineUsage)));
    assert!(matches!(parse_signal("square"), Err(CliError::SquareUsage)));
    assert!(matches!(parse_signal("multi:"), Err(CliError::MultiUsage)));
    assert!(matches!(
        parse_signal("multi:100,,1000, 5e3,"),
        Ok(SignalSyntax::Multitone { frequencies_hz }) if frequencies_hz == vec!["100", "1000", "5e3"]
    ));
    assert!(matches!(parse_signal("sine:abc"), Err(CliError::BadNumber(p)) if p == "abc"));
    assert!(matches!(parse_signal("multi:1, x ,2"), Err(CliError::BadNumber(p)) if p == " x "));
    assert!(matches!(parse_signal("white"), Ok(SignalSyntax::Noise { pink: false, period_frames: 0 })));
    assert!(matches!(parse_signal("pink:whatever"), Ok(SignalSyntax::Noise { pink: true, period_frames: 0 })));
    assert!(matches!(parse_signal("periodic"), Ok(SignalSyntax::Noise { pink: false, period_frames: 16_384 })));
    assert!(matches!(parse_signal("periodic:4096"), Ok(SignalSyntax::Noise { pink: false, period_frames: 4096 })));
    assert!(matches!(parse_signal("periodic:-1"), Err(CliError::PeriodUsage)));
    assert!(matches!(parse_signal("periodic:4294967296"), Err(CliError::PeriodUsage)));
    assert!(matches!(parse_signal("triangle:3"), Err(CliError::UnknownSignal(k)) if k == "triangle"));
}

#[test]
fn generator_flags() {
    assert!(matches!(generator(None, Some("-3dBFS"), None), Ok(None)));
    match generator(Some("sine:1000"), None, None) {
        Ok(Some(GeneratorSyntax::Signal { signal: SignalSyntax::Sine { hz }, level })) => {
            assert_eq!(hz, "1000");
            assert!(level.unit == LevelUnit::PeakDbfs);
            assert_eq!(level.value, "-20");
        }
        _ => panic!("expected a sine with the default level"),
    }
    // The level is read before the signal.
    assert!(matches!(generator(Some("nope"), Some("x"), None), Err(CliError::BadLevel(_))));
    match generator(Some("white"), None, Some(" 997 , -6 ")) {
        Ok(Some(GeneratorSyntax::SineAlias { hz, amplitude_dbfs })) => {
            assert_eq!(hz, "997");
            assert_eq!(amplitude_dbfs, "-6");
        }
        _ => panic!("the alias wins"),
    }
    assert!(matches!(generator(None, None, Some("1000")), Err(CliError::SineAliasUsage)));
    assert!(matches!(generator(None, None, Some("1000, ")), Err(CliError::EmptyFloat)));
    assert!(matches!(generator(None, None, Some("1k,0")), Err(CliError::InvalidFloat)));
}

#[test]
fn float_grammar_matches_std() {
    let cases = [
        "1", "-1", "+1.5", ".5", "5.", ".", "", "+", "1e5", "1E-5", "1e", "e1", "inf", "-Infinity",
        "NaN", "nana", "1.2.3", "12a", "0x10", " 1", "1_000", "+-1", "1e+", "1.e3", ".e3",
    ];
    for c in cases {
        let v = chars_of(c);
        assert_eq!(float_text(&v, 0, v.len()), c.parse::<f32>().is_ok(), "{c:?}");
    }
}

#[test]
fn u32_grammar_matches_std() {
    let cases = ["0", "+7", "-7", "", "+", "4294967295", "4294967296", "00012", "1 2", "99999999999999999999"];
    for c in cases {
        assert_eq!(parse_u32(&chars_of(c)), c.parse::<u32>().ok(), "{c:?}");
    }
}

#[test]
fn trim_matches_std() {
    for c in ["  a b  ", "\t\n x\u{3000}", "", "   ", "\u{2028}y\u{a0}", "z"] {
        let t: String = trim(&chars_of(c)).into_iter().collect();
        assert_eq!(t, c.trim(), "{c:?}");
    }
}
