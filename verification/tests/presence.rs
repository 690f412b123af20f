use presence_tracker::{
    classify_line, extract_events, pick_latest, process_log_diff, DirEntryInfo, Event, LogCursor,
    Player, PresenceRegistry, WatchState,
};

fn names_of(registry: &PresenceRegistry) -> Vec<String> {
    let mut names = registry.snapshot().names;
    names.sort();
    names
}

#[test]
fn extraction_is_deterministic() {
    let baseline = "old line\n";
    let updated = "old line\nCreating physical player 7 (Alice)\nProcessing removal for player 2 (Bob)\n";
    let first = extract_events(baseline, updated);
    let second = extract_events(baseline, updated);
    assert_eq!(first, second);
    assert!(!first.is_empty());
}

#[test]
fn enter_then_exit_round_trip_yields_empty_snapshot() {
    let mut registry = PresenceRegistry::new();
    registry.apply(&Event::Enter(String::from("Bob")));
    registry.apply(&Event::Exit(String::from("Bob")));
    let snapshot = registry.snapshot();
    assert_eq!(snapshot.count, 0);
    assert!(snapshot.names.is_empty());
}

#[test]
fn single_creation_line_adds_one_player() {
    let events = extract_events("", "Creating physical player 7 (Alice)\n");
    assert_eq!(events, vec![Event::Enter(String::from("Alice"))]);

    let mut registry = PresenceRegistry::new();
    registry.apply_all(&events);
    assert_eq!(registry.count(), 1);
    assert_eq!(names_of(&registry), vec![String::from("Alice")]);
}

#[test]
fn removal_then_creation_keeps_the_reused_name_present() {
    let mut registry = PresenceRegistry::new();
    registry.apply(&Event::Enter(String::from("Alice")));

    let chunk = "Processing removal for player 7 (Alice)\nCreating physical player 9 (Alice)\n";
    let events = extract_events("", chunk);
    assert_eq!(
        events,
        vec![
            Event::Exit(String::from("Alice")),
            Event::Enter(String::from("Alice")),
        ]
    );

    registry.apply_all(&events);
    assert_eq!(registry.count(), 1);
    assert_eq!(names_of(&registry), vec![String::from("Alice")]);
}

#[test]
fn no_growth_means_no_read_and_no_change() {
    let mut registry = PresenceRegistry::new();
    registry.apply(&Event::Enter(String::from("Alice")));

    let state = WatchState::new(100);
    assert_eq!(state.plan_read(100), None);
    assert_eq!(state.plan_read(40), None);

    let events = extract_events("same content\n", "same content\n");
    assert!(events.is_empty());
    registry.apply_all(&events);
    assert_eq!(registry.count(), 1);
}

#[test]
fn truncated_pattern_extracts_nothing() {
    let events = extract_events("", "Creating physical player 7 (Alice");
    assert!(events.is_empty());
    let events = extract_events("", "Processing removal for player 12 (Bob");
    assert!(events.is_empty());
}

#[test]
fn exit_for_absent_name_is_a_no_op() {
    let mut registry = PresenceRegistry::new();
    registry.apply(&Event::Enter(String::from("Alice")));
    registry.apply(&Event::Exit(String::from("Ghost")));
    assert_eq!(registry.count(), 1);
    assert_eq!(names_of(&registry), vec![String::from("Alice")]);
}

#[test]
fn duplicate_creation_overwrites_instead_of_duplicating() {
    let mut registry = PresenceRegistry::new();
    registry.apply(&Event::Enter(String::from("Alice")));
    registry.apply(&Event::Enter(String::from("Alice")));
    assert_eq!(registry.count(), 1);
}

#[test]
fn exits_are_ordered_before_enters_within_a_span() {
    let chunk = "Creating physical player 1 (Ann)\n\
                 Processing removal for player 2 (Ben)\n\
                 Creating physical player 3 (Cal)\n";
    let events = extract_events("", chunk);
    assert_eq!(
        events,
        vec![
            Event::Exit(String::from("Ben")),
            Event::Enter(String::from("Ann")),
            Event::Enter(String::from("Cal")),
        ]
    );
}

#[test]
fn extraction_diffs_against_the_baseline() {
    let baseline = "Creating physical player 1 (Old)\n";
    let mut updated = String::from(baseline);
    updated.push_str("Creating physical player 2 (New)\n");
    let events = extract_events(baseline, &updated);
    assert_eq!(events, vec![Event::Enter(String::from("New"))]);
}

#[test]
fn classify_recognizes_creation_lines() {
    assert_eq!(
        classify_line("Creating physical player 7 (Alice)"),
        Some(Event::Enter(String::from("Alice")))
    );
    assert_eq!(
        classify_line("[12:30:01] Creating physical player 154 (Dr. No 2)"),
        Some(Event::Enter(String::from("Dr. No 2")))
    );
}

#[test]
fn classify_recognizes_removal_lines() {
    assert_eq!(
        classify_line("Processing removal for player 7 (Alice)"),
        Some(Event::Exit(String::from("Alice")))
    );
}

#[test]
fn classify_ignores_other_lines() {
    assert_eq!(classify_line(""), None);
    assert_eq!(classify_line("something entirely different"), None);
    assert_eq!(classify_line("Creating physical player (Alice)"), None);
    assert_eq!(classify_line("Creating physical player 7 Alice)"), None);
    assert_eq!(classify_line("Creating physical player 7 (Alice"), None);
}

#[test]
fn classify_captures_up_to_the_first_closing_parenthesis() {
    assert_eq!(
        classify_line("Creating physical player 7 (Ann (the second))"),
        Some(Event::Enter(String::from("Ann (the second")))
    );
}

#[test]
fn classify_prefers_removal_when_both_patterns_occur() {
    let line = "Processing removal for player 1 (A) Creating physical player 2 (B)";
    assert_eq!(classify_line(line), Some(Event::Exit(String::from("A"))));
}

#[test]
fn classify_handles_non_ascii_names_and_long_ids() {
    assert_eq!(
        classify_line("Creating physical player 65535 (Álice Ω)"),
        Some(Event::Enter(String::from("Álice Ω")))
    );
}

#[test]
fn carriage_returns_do_not_break_extraction() {
    let events = extract_events("", "Creating physical player 7 (Alice)\r\n");
    assert_eq!(events, vec![Event::Enter(String::from("Alice"))]);
}

#[test]
fn cursor_plans_reads_only_on_growth() {
    let mut cursor = LogCursor::new(10);
    assert_eq!(cursor.plan_read(10), None);
    assert_eq!(cursor.plan_read(9), None);
    assert_eq!(cursor.plan_read(25), Some((10, 25)));
    cursor.commit(25);
    assert_eq!(cursor.plan_read(25), None);
}

#[test]
fn watch_state_diffs_each_chunk_against_the_grown_tail() {
    let mut registry = PresenceRegistry::new();
    let mut state = WatchState::new(0);

    let first = "Creating physical player 1 (Ann)\n";
    if let Some((start, end)) = state.plan_read(first.len() as u64) {
        assert_eq!((start, end), (0, first.len() as u64));
        state.absorb_chunk(&mut registry, end, first);
    } else {
        panic!("expected a read plan");
    }
    assert_eq!(names_of(&registry), vec![String::from("Ann")]);

    let second = "Processing removal for player 1 (Ann)\n";
    let total = (first.len() + second.len()) as u64;
    if let Some((start, end)) = state.plan_read(total) {
        assert_eq!((start, end), (first.len() as u64, total));
        state.absorb_chunk(&mut registry, end, second);
    } else {
        panic!("expected a read plan");
    }
    assert_eq!(registry.count(), 0);
    assert_eq!(state.plan_read(total), None);
}

#[test]
fn process_log_diff_applies_extracted_events() {
    let mut registry = PresenceRegistry::new();
    process_log_diff(&mut registry, "", "Creating physical player 3 (Eve)\n");
    assert_eq!(names_of(&registry), vec![String::from("Eve")]);
    process_log_diff(
        &mut registry,
        "Creating physical player 3 (Eve)\n",
        "Creating physical player 3 (Eve)\nProcessing removal for player 3 (Eve)\n",
    );
    assert_eq!(registry.count(), 0);
}

#[test]
fn contains_reports_presence() {
    let mut registry = PresenceRegistry::new();
    assert!(!registry.contains(&String::from("Alice")));
    registry.apply(&Event::Enter(String::from("Alice")));
    assert!(registry.contains(&String::from("Alice")));
}

#[test]
fn player_records_keep_their_name() {
    let player = Player {
        name: String::from("Alice"),
    };
    assert_eq!(player.name, "Alice");
}

fn entry(path: &str, modified: u64, is_file: bool) -> DirEntryInfo {
    DirEntryInfo {
        path: String::from(path),
        modified,
        is_file,
    }
}

#[test]
fn pick_latest_selects_the_newest_file() {
    let entries = vec![
        entry("a.log", 5, true),
        entry("b.log", 9, true),
        entry("c.log", 7, true),
    ];
    assert_eq!(pick_latest(&entries), Some(1));
}

#[test]
fn pick_latest_breaks_ties_towards_the_last_entry() {
    let entries = vec![entry("a.log", 9, true), entry("b.log", 9, true)];
    assert_eq!(pick_latest(&entries), Some(1));
}

#[test]
fn pick_latest_ignores_directories() {
    let entries = vec![
        entry("newest-dir", 99, false),
        entry("a.log", 3, true),
    ];
    assert_eq!(pick_latest(&entries), Some(1));
    let only_dirs = vec![entry("dir", 4, false)];
    assert_eq!(pick_latest(&only_dirs), None);
    let empty: Vec<DirEntryInfo> = Vec::new();
    assert_eq!(pick_latest(&empty), None);
}

#[test]
fn logs_folder_path_appends_the_fixed_subfolder() {
    assert_eq!(
        presence_tracker::logs_folder_path("C:/Users/me/AppData/Local"),
        "C:/Users/me/AppData/Local/FiveM/FiveM.app/logs"
    );
}
