use lyys_panel::crontab::{
    apply_add, apply_delete, apply_update, parse, serialize, valid_field, CronData, CronEntry, CronError,
    TimeField,
};

fn entry(m: &str, h: &str, d: &str, mo: &str, w: &str, cmd: &str, comment: &str) -> CronEntry {
    CronEntry {
        minute: m.to_string(),
        hour: h.to_string(),
        day: d.to_string(),
        month: mo.to_string(),
        weekday: w.to_string(),
        command: cmd.to_string(),
        comment: comment.to_string(),
    }
}

fn fields(e: &CronEntry) -> [&str; 7] {
    [
        e.minute.as_str(),
        e.hour.as_str(),
        e.day.as_str(),
        e.month.as_str(),
        e.weekday.as_str(),
        e.command.as_str(),
        e.comment.as_str(),
    ]
}

#[test]
fn time_fields() {
    assert!(valid_field("*"));
    assert!(valid_field("*/5"));
    assert!(valid_field("1,15,30-45"));
    assert!(valid_field("?"));
    assert!(!valid_field(""));
    assert!(!valid_field("MON"));
    assert!(!valid_field("1 2"));
    assert!(valid_field(&"1".repeat(32)));
    assert!(!valid_field(&"1".repeat(33)));
}

#[test]
fn validate_reports_the_first_bad_part() {
    assert_eq!(entry("*", "*", "*", "*", "*", "ls", "").validate(), Ok(()));
    assert_eq!(
        entry("x", "y", "*", "*", "*", "ls", "").validate(),
        Err(CronError::InvalidField(TimeField::Minute))
    );
    assert_eq!(
        entry("0", "24h", "*", "*", "*", "ls", "").validate(),
        Err(CronError::InvalidField(TimeField::Hour))
    );
    assert_eq!(
        entry("0", "1", "", "*", "*", "ls", "").validate(),
        Err(CronError::InvalidField(TimeField::Day))
    );
    assert_eq!(
        entry("0", "1", "1", "jan", "*", "ls", "").validate(),
        Err(CronError::InvalidField(TimeField::Month))
    );
    assert_eq!(
        entry("0", "1", "1", "1", "sun", "ls", "").validate(),
        Err(CronError::InvalidField(TimeField::Weekday))
    );
    assert_eq!(entry("0", "1", "1", "1", "0", "   ", "").validate(), Err(CronError::BadCommand));
    assert_eq!(entry("0", "1", "1", "1", "0", "ls\nrm", "").validate(), Err(CronError::BadCommand));
    assert_eq!(entry("0", "1", "1", "1", "0", "ls", "a\nb").validate(), Err(CronError::BadComment));
}

#[test]
fn line_of_an_entry() {
    assert_eq!(entry("0", "3", "*", "*", "1", "/usr/bin/backup --all", "x").to_line(), "0 3 * * 1 /usr/bin/backup --all");
}

#[test]
fn parse_entries_comments_and_environment() {
    let text = "SHELL=/bin/bash\n\n# nightly backup\n0 3 * * *   /usr/bin/backup  --all\n# stray\nPATH=/usr/bin\n*/5 * * * * echo hi\nbroken line\n";
    let d = parse(text);
    assert_eq!(d.env_lines, vec!["SHELL=/bin/bash".to_string(), "PATH=/usr/bin".to_string()]);
    assert_eq!(d.entries.len(), 2);
    assert_eq!(fields(&d.entries[0]), ["0", "3", "*", "*", "*", "/usr/bin/backup  --all", "nightly backup"]);
    // an environment line in between drops the pending comment
    assert_eq!(fields(&d.entries[1]), ["*/5", "*", "*", "*", "*", "echo hi", ""]);
}

#[test]
fn parse_short_lines_and_empty_commands() {
    let d = parse("# lost\n1 2 3\n  5 4 3 2 1  \n");
    assert_eq!(d.entries.len(), 1);
    assert_eq!(fields(&d.entries[0]), ["5", "4", "3", "2", "1", "", ""]);
    let d = parse("");
    assert!(d.entries.is_empty());
    assert!(d.env_lines.is_empty());
}

#[test]
fn serialize_writes_environment_first() {
    let data = CronData {
        entries: vec![entry("0", "3", "*", "*", "*", "backup", "nightly"), entry("5", "*", "*", "*", "*", "sync", "")],
        env_lines: vec!["MAILTO=root".to_string()],
    };
    assert_eq!(serialize(&data), "MAILTO=root\n# nightly\n0 3 * * * backup\n5 * * * * sync\n");
}

#[test]
fn read_after_write() {
    let data = CronData {
        entries: vec![entry("0", "3", "*", "*", "*", "backup --all", "nightly"), entry("*/5", "*", "*", "*", "*", "sync", "")],
        env_lines: vec!["MAILTO=root".to_string()],
    };
    let again = parse(&serialize(&data));
    assert_eq!(again.env_lines, data.env_lines);
    assert_eq!(again.entries.len(), 2);
    for i in 0..2 {
        assert_eq!(fields(&again.entries[i]), fields(&data.entries[i]));
    }
}

#[test]
fn add_then_list() {
    let raw = "MAILTO=root\n0 1 * * * a\n";
    let out = apply_add(raw, &entry("5", "4", "*", "*", "*", "b", "second")).unwrap();
    assert_eq!(out, "MAILTO=root\n0 1 * * * a\n# second\n5 4 * * * b\n");
    let listed = parse(&out).entries;
    assert_eq!(listed.len(), 2);
    assert_eq!(fields(&listed[1]), ["5", "4", "*", "*", "*", "b", "second"]);
    assert_eq!(apply_add(raw, &entry("5", "4", "*", "*", "*", "", "")), Err(CronError::BadCommand));
}

#[test]
fn update_then_list() {
    let raw = "0 1 * * * a\n0 2 * * * b\n";
    let out = apply_update(raw, 1, &entry("9", "9", "*", "*", "*", "c", "")).unwrap();
    assert_eq!(out, "0 1 * * * a\n9 9 * * * c\n");
    assert_eq!(apply_update(raw, 2, &entry("9", "9", "*", "*", "*", "c", "")), Err(CronError::NoSuchEntry));
    assert_eq!(
        apply_update(raw, 0, &entry("bad", "9", "*", "*", "*", "c", "")),
        Err(CronError::InvalidField(TimeField::Minute))
    );
}

#[test]
fn delete_then_list() {
    let raw = "A=1\n# first\n0 1 * * * a\n0 2 * * * b\n";
    assert_eq!(apply_delete(raw, 0).unwrap(), "A=1\n0 2 * * * b\n");
    assert_eq!(apply_delete(raw, 1).unwrap(), "A=1\n# first\n0 1 * * * a\n");
    assert_eq!(apply_delete(raw, 2), Err(CronError::NoSuchEntry));
    assert_eq!(apply_delete("", 0), Err(CronError::NoSuchEntry));
}

#[test]
fn fields_split_on_runs_of_whitespace() {
    let d = parse("0  3 * * * backup.sh\n1\t2  *\t *  *   run --now  \n");
    assert_eq!(d.entries.len(), 2);
    assert_eq!(fields(&d.entries[0]), ["0", "3", "*", "*", "*", "backup.sh", ""]);
    assert_eq!(fields(&d.entries[1]), ["1", "2", "*", "*", "*", "run --now", ""]);
}
