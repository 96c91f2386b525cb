use plojo::telemetry::{Content, FrequencyAnalyzer, LogEntry, Processor};

fn entry(time: i64, stroke: &str, backspace_num: u32, text: &str) -> LogEntry {
    LogEntry {
        time,
        stroke: stroke.to_string(),
        content: Content::Replace {
            backspace_num,
            text: text.to_string(),
        },
    }
}

fn log_entries() -> Vec<LogEntry> {
    vec![
        entry(1607820695881, "-T", 0, "  the"),
        entry(1607820696136, "K-R", 0, " consider"),
        entry(1607820696286, "-T", 0, " the"),
        entry(1607820696540, "TO", 0, " to"),
        entry(1607820697320, "TPUL", 0, " full"),
        entry(1607820697605, "K-R", 0, " consider"),
        entry(1607820697808, "-T", 0, " the"),
    ]
}

#[test]
fn test_1_gram_statistics() {
    let mut f = FrequencyAnalyzer::new();
    f.process(&log_entries());

    let freq = f.grams_1(2);
    assert_eq!(freq, vec![(&"-T".to_string(), 3), (&"K-R".to_string(), 2)])
}

#[test]
fn test_ignore_commands_and_undo() {
    let mut f = FrequencyAnalyzer::new();
    f.process(&vec![
        entry(1607820695881, "*", 2, ""),
        entry(1607820695882, "*", 2, ""),
        entry(1607820695883, "*", 2, ""),
        entry(1607820695884, "*", 2, ""),
        LogEntry {
            time: 1607820697201,
            stroke: "SRO*PL".to_string(),
            content: Content::Command,
        },
        LogEntry {
            time: 1607820697202,
            stroke: "SRO*PL".to_string(),
            content: Content::Command,
        },
        LogEntry {
            time: 1607820697203,
            stroke: "SRO*PL".to_string(),
            content: Content::Command,
        },
        LogEntry {
            time: 1607820697423,
            stroke: "KPA*".to_string(),
            content: Content::NoOp,
        },
    ]);

    let freq = f.grams_1(2);
    assert_eq!(freq, vec![])
}

#[test]
fn test_2_gram_statistics() {
    let mut f = FrequencyAnalyzer::new();
    f.process(&log_entries());

    let freq = f.grams_2(2);
    assert_eq!(freq, vec![(&["K-R".to_string(), "-T".to_string()], 2)])
}

#[test]
fn grams_are_sorted_and_over_threshold() {
    let mut f = FrequencyAnalyzer::new();
    f.process(&log_entries());

    let freq = f.grams_1(1);
    assert_eq!(
        freq,
        vec![
            (&"-T".to_string(), 3),
            (&"K-R".to_string(), 2),
            (&"TO".to_string(), 1),
            (&"TPUL".to_string(), 1)
        ]
    );
    assert_eq!(f.grams_1(4), vec![]);
}
