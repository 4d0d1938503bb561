use sacn::commands::{
    parse_receiver_line, parse_source_line, receiver_line_fails, source_line_fails, CommandError,
    ReceiverCommand, SourceCommand, TestPreset,
};
use sacn::console::{char_is_space, read_flag, read_unsigned, split_words};

fn chars(s: &str) -> Vec<char> {
    s.chars().collect()
}

fn source(line: &str) -> Result<SourceCommand, CommandError> {
    assert!(!source_line_fails(line), "line fails: {:?}", line);
    parse_source_line(line)
}

fn receiver(line: &str) -> Result<ReceiverCommand, CommandError> {
    assert!(!receiver_line_fails(line), "line fails: {:?}", line);
    parse_receiver_line(line)
}

#[test]
fn split_words_matches_split_whitespace() {
    let lines = [
        "d 1 0 100 1 2 3\n",
        "  leading and   trailing  ",
        "tab\tseparated\u{a0}nbsp\u{3000}ideographic\u{2003}em",
        "",
        "\n",
        "single",
        "x\u{85}y\u{2028}z",
    ];
    for line in lines.iter() {
        let expected: Vec<Vec<char>> = line.split_whitespace().map(|w| w.chars().collect()).collect();
        assert_eq!(split_words(line), expected);
    }
}

#[test]
fn char_is_space_matches_std() {
    for code in 0u32..0x3100 {
        if let Some(c) = char::from_u32(code) {
            assert_eq!(char_is_space(c), c.is_whitespace(), "char {:x}", code);
        }
    }
}

#[test]
fn read_unsigned_matches_from_str() {
    let words = ["0", "7", "+7", "65535", "65536", "-1", "+", "", "1a", "00012", "255", "256", "18446744073709551615", "18446744073709551616", "99999999999999999999999"];
    for w in words.iter() {
        let c = chars(w);
        assert_eq!(read_unsigned(&c, 0xffff), w.parse::<u16>().ok().map(|v| v as u64), "u16 {:?}", w);
        assert_eq!(read_unsigned(&c, 0xff), w.parse::<u8>().ok().map(|v| v as u64), "u8 {:?}", w);
        assert_eq!(read_unsigned(&c, u64::MAX), w.parse::<u64>().ok(), "u64 {:?}", w);
    }
}

#[test]
fn read_flag_matches_from_str() {
    for w in ["true", "false", "True", "1", "", "truee"].iter() {
        assert_eq!(read_flag(&chars(w)), w.parse::<bool>().ok(), "{:?}", w);
    }
}

#[test]
fn source_data_line() {
    match source("d 1 0 100 1 2 3\n") {
        Ok(SourceCommand::Data { universe, sync_uni, priority, data }) => {
            assert_eq!((universe, sync_uni, priority), (1, 0, 100));
            assert_eq!(data, vec![1, 2, 3]);
        }
        other => panic!("unexpected {:?}", other),
    }
}

#[test]
fn source_full_data_line_pads_with_zeros() {
    match source("f 2 3 50 0 9 8") {
        Ok(SourceCommand::FullData { universe, sync_uni, priority, data }) => {
            assert_eq!((universe, sync_uni, priority), (2, 3, 50));
            assert_eq!(data.len(), 513);
            assert_eq!(&data[0..3], &[0, 9, 8]);
            assert!(data[3..].iter().all(|v| *v == 0));
        }
        other => panic!("unexpected {:?}", other),
    }
}

#[test]
fn source_full_data_line_with_too_many_values_fails() {
    let mut line = String::from("f 1 0 100");
    for _ in 0..514 {
        line.push_str(" 1");
    }
    assert!(source_line_fails(&line));
    let mut fits = String::from("f 1 0 100");
    for _ in 0..513 {
        fits.push_str(" 1");
    }
    assert!(!source_line_fails(&fits));
}

#[test]
fn source_unicast_lines() {
    match source("u 4 0 100 192.168.0.7 5 6") {
        Ok(SourceCommand::Unicast { universe, sync_uni, priority, dst, data }) => {
            assert_eq!((universe, sync_uni, priority), (4, 0, 100));
            assert_eq!(dst, chars("192.168.0.7"));
            assert_eq!(data, vec![5, 6]);
        }
        other => panic!("unexpected {:?}", other),
    }
    match source("us 9 10.0.0.1:5568") {
        Ok(SourceCommand::UnicastSync { universe, dst }) => {
            assert_eq!(universe, 9);
            assert_eq!(dst, chars("10.0.0.1:5568"));
        }
        other => panic!("unexpected {:?}", other),
    }
    assert_eq!(source("u 4 0 100").unwrap_err(), CommandError::TooFewWords);
    assert_eq!(source("us 4").unwrap_err(), CommandError::TooFewWords);
}

#[test]
fn source_single_argument_lines() {
    assert!(matches!(source("s 7"), Ok(SourceCommand::Sync { universe: 7 })));
    assert!(matches!(source("r 8"), Ok(SourceCommand::Register { universe: 8 })));
    assert!(matches!(source("q 9"), Ok(SourceCommand::Terminate { universe: 9 })));
    assert!(matches!(source("q 0"), Ok(SourceCommand::Quit)));
    assert!(matches!(source("w 250"), Ok(SourceCommand::Sleep { millis: 250 })));
    assert!(matches!(source("p true"), Ok(SourceCommand::Preview { on: true })));
    assert!(matches!(source("p false"), Ok(SourceCommand::Preview { on: false })));
    assert!(matches!(source("# a comment"), Ok(SourceCommand::Ignore)));
    assert!(matches!(
        source("x 3 1000 90"),
        Ok(SourceCommand::DataOverTime { universe: 3, duration_millis: 1000, priority: 90 })
    ));
    assert!(matches!(source("a 5 200"), Ok(SourceCommand::AllData { universe: 5, value: 200 })));
}

#[test]
fn source_test_presets() {
    assert!(matches!(source("t 7 1"), Ok(SourceCommand::TestPreset { preset: TestPreset::MovingChannels, universe: 1 })));
    assert!(matches!(source("t 8 2"), Ok(SourceCommand::TestPreset { preset: TestPreset::RapidChanges, universe: 2 })));
    assert!(matches!(source("t 9 3"), Ok(SourceCommand::TestPreset { preset: TestPreset::HighDataRate, universe: 3 })));
    assert_eq!(source("t 10 1").unwrap_err(), CommandError::UnknownPreset);
    assert!(source_line_fails("t 7 x"));
}

#[test]
fn source_refused_lines() {
    assert_eq!(source("").unwrap_err(), CommandError::TooFewWords);
    assert_eq!(source("d").unwrap_err(), CommandError::TooFewWords);
    assert_eq!(source("d 1 0").unwrap_err(), CommandError::TooFewWords);
    assert_eq!(source("x 1 2").unwrap_err(), CommandError::TooFewWords);
    assert_eq!(source("a 1").unwrap_err(), CommandError::TooFewWords);
    assert_eq!(source("p maybe").unwrap_err(), CommandError::BadFlag);
    assert_eq!(source("z 1").unwrap_err(), CommandError::UnknownCommand);
}

#[test]
fn source_lines_that_fail() {
    assert!(source_line_fails("d x"));
    assert!(source_line_fails("d 1 0 300"));
    assert!(source_line_fails("d 1 0 100 1 256"));
    assert!(source_line_fails("s 65536"));
    assert!(source_line_fails("w -1"));
    assert!(!source_line_fails("d 1"));
}

#[test]
fn receiver_lines() {
    assert_eq!(receiver(""), Ok(ReceiverCommand::Help));
    assert_eq!(receiver("h"), Ok(ReceiverCommand::Help));
    assert_eq!(receiver("# note"), Ok(ReceiverCommand::Ignore));
    assert_eq!(receiver("r 0"), Ok(ReceiverCommand::Receive { timeout_secs: 0 }));
    assert_eq!(receiver("c 2 5"), Ok(ReceiverCommand::ReceiveRepeatedly { timeout_secs: 2, count: 5 }));
    assert_eq!(receiver("s"), Ok(ReceiverCommand::PrintSources));
    assert_eq!(receiver("x"), Ok(ReceiverCommand::PrintSourcesUnchecked));
    assert_eq!(receiver("q"), Ok(ReceiverCommand::Quit));
    assert_eq!(receiver("w 3"), Ok(ReceiverCommand::Sleep { secs: 3 }));
    assert_eq!(receiver("l 1"), Ok(ReceiverCommand::Listen { universe: 1 }));
    assert_eq!(receiver("t 2"), Ok(ReceiverCommand::StopListening { universe: 2 }));
    assert_eq!(receiver("p true"), Ok(ReceiverCommand::Preview { on: true }));
    assert_eq!(receiver("a false"), Ok(ReceiverCommand::AnnounceDiscovered { on: false }));
    assert_eq!(receiver("r"), Err(CommandError::TooFewWords));
    assert_eq!(receiver("c 1"), Err(CommandError::TooFewWords));
    assert_eq!(receiver("p yes"), Err(CommandError::BadFlag));
    assert_eq!(receiver("y"), Err(CommandError::UnknownCommand));
    assert!(receiver_line_fails("p"));
    assert!(receiver_line_fails("a"));
    assert!(receiver_line_fails("l 70000"));
    assert!(receiver_line_fails("r soon"));
}

#[test]
fn receive_timeout_zero_means_none() {
    assert_eq!(sacn::commands::receive_timeout(0), None);
    assert_eq!(sacn::commands::receive_timeout(5), Some(5));
}
