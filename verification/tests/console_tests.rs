use phys_rs::console::{
    first_word_of, parse_command, trim, Console, ConsoleCommand, LoadOutcome, SaveOutcome,
};

#[test]
fn words_and_trimming() {
    assert_eq!(first_word_of("  help me "), "help");
    assert_eq!(first_word_of("clear"), "clear");
    assert_eq!(first_word_of(" \t "), "");
    assert_eq!(trim("  spawn star \n"), "spawn star");
    assert_eq!(trim("\u{a0}x\u{3000}"), "x");
    assert_eq!(trim(""), "");
}

#[test]
fn commands_are_recognized_by_first_word() {
    assert_eq!(parse_command("help"), Some(ConsoleCommand::Help));
    assert_eq!(parse_command("  clear  now"), Some(ConsoleCommand::Clear));
    assert_eq!(parse_command("Clear"), Some(ConsoleCommand::Unrecognized));
    assert_eq!(parse_command("spawn"), Some(ConsoleCommand::Unrecognized));
    assert_eq!(parse_command("   "), None);
}

#[test]
fn execute_updates_history() {
    let mut c = Console::new();
    c.execute("help");
    assert_eq!(c.history, vec!["Commands: clear, help".to_string()]);
    c.execute("warp 9");
    assert_eq!(c.history[1], "Command 'warp 9' not recognized");
    c.execute("  ");
    assert_eq!(c.history.len(), 2);
    c.execute("clear");
    assert!(c.history.is_empty());
}

#[test]
fn submit_echoes_trimmed_input() {
    let mut c = Console::new();
    assert_eq!(c.submit("   "), None);
    assert!(c.history.is_empty());
    assert_eq!(c.submit("  help "), Some("help".to_string()));
    assert_eq!(c.history, vec!["> help".to_string()]);
}

#[test]
fn pause_reports() {
    let mut c = Console::new();
    c.report_pause(true);
    c.report_pause(false);
    assert_eq!(c.history, vec!["Simulation paused".to_string(), "Simulation resumed".to_string()]);
}

#[test]
fn quick_save_and_load_reports() {
    let mut c = Console::new();
    c.report_quick_save(&SaveOutcome::Saved);
    c.report_quick_save(&SaveOutcome::CreateFailed("permission denied".to_string()));
    c.report_quick_save(&SaveOutcome::WriteFailed("disk full".to_string()));
    c.report_quick_load(&LoadOutcome::Loaded);
    c.report_quick_load(&LoadOutcome::OpenFailed("not found".to_string()));
    c.report_quick_load(&LoadOutcome::DecodeFailed("bad tag".to_string()));
    assert_eq!(
        c.history,
        vec![
            "QuickSave successful".to_string(),
            "Failed to create save file: permission denied".to_string(),
            "QuickSave failed: disk full".to_string(),
            "QuickLoad successful".to_string(),
            "Failed to open save file: not found".to_string(),
            "QuickLoad failed: bad tag".to_string(),
        ]
    );
}

#[test]
fn trimming_agrees_with_std_white_space() {
    for u in 0u32..0x11_0000 {
        if let Some(c) = char::from_u32(u) {
            let s = format!("{c}x{c}");
            let expected = if c.is_whitespace() { "x".to_string() } else { s.clone() };
            assert_eq!(trim(&s), expected, "U+{u:04X}");
        }
    }
}
