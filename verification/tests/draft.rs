use openwarrant::draft::{
    admission, append_line, checkpoint, command_of, drop_unit, entry, latest, line_text, new_units,
    open_unit, resume_next, retitle, set_field, set_title, snapshot_ordinal, words, DraftCommand, Unit,
};

fn ids(units: &[Unit]) -> Vec<&str> {
    units.iter().map(|u| u.id.as_str()).collect()
}

#[test]
fn draft_words_split_on_white_space() {
    assert_eq!(words("  unit  a\tbinding \n"), vec!["unit", "a", "binding"]);
    assert_eq!(words(""), Vec::<String>::new());
    assert_eq!(words("   "), Vec::<String>::new());
    assert_eq!(words("x\u{3000}y"), vec!["x", "y"]);
}

#[test]
fn draft_commands_parse_as_the_prompt_lists_them() {
    assert_eq!(command_of("cancel"), DraftCommand::Cancel);
    assert_eq!(command_of(" help "), DraftCommand::Help);
    assert_eq!(command_of("preview"), DraftCommand::Preview);
    assert_eq!(command_of("save"), DraftCommand::Save);
    assert_eq!(
        command_of("title"),
        DraftCommand::Field { key: "title".to_owned(), json: false }
    );
    assert_eq!(
        command_of("revision"),
        DraftCommand::Field { key: "revision".to_owned(), json: true }
    );
    assert_eq!(
        command_of("meta owner"),
        DraftCommand::Field { key: "owner".to_owned(), json: true }
    );
    assert_eq!(
        command_of("unit goals background"),
        DraftCommand::Unit { id: "goals".to_owned(), kind: "background".to_owned() }
    );
    assert_eq!(command_of("unit goals other"), DraftCommand::Unknown);
    assert_eq!(command_of("drop scope"), DraftCommand::Drop { id: "scope".to_owned() });
    assert_eq!(command_of("save now"), DraftCommand::Unknown);
    assert_eq!(command_of(""), DraftCommand::Unknown);
    assert_eq!(command_of("title x"), DraftCommand::Unknown);
}

#[test]
fn draft_snapshot_names_carry_six_digits() {
    assert_eq!(snapshot_ordinal("draft-000000.json"), Some(0));
    assert_eq!(snapshot_ordinal("draft-004095.json"), Some(4095));
    assert_eq!(snapshot_ordinal("draft-999999.json"), Some(999_999));
    assert_eq!(snapshot_ordinal("draft-12345.json"), None);
    assert_eq!(snapshot_ordinal("draft-1234567.json"), None);
    assert_eq!(snapshot_ordinal("draft-00a000.json"), None);
    assert_eq!(snapshot_ordinal("draft-000001.yaml"), None);
    assert_eq!(snapshot_ordinal("notes.txt"), None);
}

#[test]
fn draft_directory_entries_are_sorted_out() {
    assert_eq!(entry(0, "session.lock"), Ok(None));
    assert_eq!(entry(3, ".ow-draft-12-99"), Ok(None));
    assert_eq!(entry(1, "draft-000002.json"), Ok(Some(2)));
    assert_eq!(entry(1, "readme.md"), Err("Unknown file in draft directory".to_owned()));
    assert_eq!(
        entry(8192, "draft-000002.json"),
        Err("Draft directory entry limit exceeded".to_owned())
    );
}

#[test]
fn draft_snapshots_are_admitted_within_the_limits() {
    assert_eq!(admission(true, 10, 5, 0), Ok(15));
    assert_eq!(admission(false, 10, 5, 0), Err("Invalid draft snapshot".to_owned()));
    assert_eq!(admission(true, 1_048_577, 0, 0), Err("Invalid draft snapshot".to_owned()));
    assert_eq!(admission(true, 10, u64::MAX - 5, 0), Err("Draft size overflow".to_owned()));
    assert_eq!(
        admission(true, 1_048_576, 16_000_000, 0),
        Err("Draft session limit exceeded".to_owned())
    );
    assert_eq!(admission(true, 1, 0, 4096), Err("Draft session limit exceeded".to_owned()));
}

#[test]
fn draft_resume_goes_on_from_the_latest_snapshot() {
    assert_eq!(latest(&vec![3, 7, 1]), Some(1));
    assert_eq!(latest(&vec![]), None);
    assert_eq!(latest(&vec![5]), Some(0));
    assert_eq!(resume_next(&vec![3, 7, 1]), Ok(8));
    assert_eq!(resume_next(&vec![]), Err("No saved draft to resume".to_owned()));
}

#[test]
fn draft_checkpoints_are_numbered_and_bounded() {
    assert_eq!(checkpoint(100, 0, 0), Ok("draft-000000.json".to_owned()));
    assert_eq!(checkpoint(100, 200, 42), Ok("draft-000042.json".to_owned()));
    assert_eq!(checkpoint(100, 200, 4095), Ok("draft-004095.json".to_owned()));
    let refused = Err("Draft limit reached; prior checkpoint retained".to_owned());
    assert_eq!(checkpoint(100, 200, 4096), refused);
    assert_eq!(checkpoint(1_048_577, 0, 0), refused);
    assert_eq!(checkpoint(10, 16_777_210, 3), refused);
}

#[test]
fn draft_lines_lose_their_line_endings() {
    assert_eq!(line_text("save\r\n"), "save");
    assert_eq!(line_text("a\n\r\n"), "a");
    assert_eq!(line_text("a b"), "a b");
    assert_eq!(line_text("\n"), "");
}

#[test]
fn draft_title_rewrites_the_outcome_heading() {
    assert_eq!(retitle("# Old\n\nBody.\n", "New"), "# New\n\nBody.\n");
    assert_eq!(retitle("no newline", "T"), "# T\n");
    let mut units = new_units();
    set_title(&mut units, "Ship it");
    assert_eq!(units[0].text, "# Ship it\n\nDescribe the required outcome.\n");
    assert_eq!(units[1].text, "## Scope\n\nDefine the work boundary.\n");
}

#[test]
fn draft_units_open_append_and_drop() {
    let mut units = new_units();
    assert_eq!(ids(&units), vec!["outcome", "scope", "context"]);
    let i = open_unit(&mut units, "scope", "background");
    assert_eq!(i, 1);
    assert_eq!(units[1].kind, "background");
    assert_eq!(units[1].text, "");
    append_line(&mut units, i, "## Scope");
    append_line(&mut units, i, "Only docs.");
    assert_eq!(units[1].text, "## Scope\nOnly docs.\n");
    let j = open_unit(&mut units, "risks", "binding");
    assert_eq!(j, 3);
    assert_eq!(ids(&units), vec!["outcome", "scope", "context", "risks"]);
    drop_unit(&mut units, "context");
    assert_eq!(ids(&units), vec!["outcome", "scope", "risks"]);
    drop_unit(&mut units, "absent");
    assert_eq!(ids(&units), vec!["outcome", "scope", "risks"]);
}

#[test]
fn draft_fields_are_replaced_in_place_or_added() {
    let mut fields = vec![("title".to_owned(), 1), ("id".to_owned(), 2)];
    set_field(&mut fields, "id", 9);
    assert_eq!(fields, vec![("title".to_owned(), 1), ("id".to_owned(), 9)]);
    set_field(&mut fields, "owner", 3);
    assert_eq!(
        fields,
        vec![("title".to_owned(), 1), ("id".to_owned(), 9), ("owner".to_owned(), 3)]
    );
}
