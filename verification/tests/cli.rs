use tasklist::cli::{date_from_parsed, dispatch, parse_date, Commands, DATE_ERROR, DATE_FORMAT};
use tasklist::date::Date;
use tasklist::model::{default_priority, Priority, TaskList};
use tasklist::storage::{load_tasks, Stored};

fn add_command(text: &str) -> Commands {
    Commands::Add { text: text.to_string(), due: None, priority: default_priority() }
}

#[test]
fn add_and_list_task() {
    let mut list = load_tasks(Stored::Missing).unwrap();

    let added = dispatch(&mut list, add_command("Buy milk"));
    assert!(added.save);

    let listed = dispatch(&mut list, Commands::List);
    assert!(listed.lines.iter().any(|line| line.contains("Buy milk")));
}

#[test]
fn complete_task() {
    let mut list = load_tasks(Stored::Missing).unwrap();

    let added = dispatch(&mut list, add_command("Test"));
    assert!(added.save);

    let done = dispatch(&mut list, Commands::Done { id: 1 });
    assert!(done.lines.iter().any(|line| line.contains("Completed")));

    let listed = dispatch(&mut list, Commands::List);
    assert!(listed.lines.iter().any(|line| line.contains("[x]")));
}

#[test]
fn delete_task() {
    let mut list = load_tasks(Stored::Missing).unwrap();

    let added = dispatch(&mut list, add_command("Task1"));
    assert!(added.save);

    let deleted = dispatch(&mut list, Commands::Delete { id: 1 });
    assert!(deleted.lines.iter().any(|line| line.contains("Deleted")));

    let listed = dispatch(&mut list, Commands::List);
    assert!(listed.lines.iter().any(|line| line.contains("No tasks")));
}

#[test]
fn add_reports_the_new_id() {
    let mut list = TaskList::new();

    let first = dispatch(&mut list, add_command("one"));
    let second = dispatch(&mut list, add_command("two"));

    assert_eq!(first.lines, vec!["Added task #1".to_string()]);
    assert_eq!(second.lines, vec!["Added task #2".to_string()]);
    assert!(first.save && second.save);
    assert_eq!(list.next_id, 3);
}

#[test]
fn added_task_is_listed_with_medium_priority() {
    let mut list = TaskList::new();
    dispatch(&mut list, add_command("Buy milk"));

    let listed = dispatch(&mut list, Commands::List);

    assert_eq!(listed.lines, vec!["[ ] 1 [medium] Buy milk".to_string()]);
    assert!(!listed.save);
}

#[test]
fn unfinished_low_comes_before_done_high() {
    let mut list = TaskList::new();
    dispatch(
        &mut list,
        Commands::Add { text: "A".to_string(), due: None, priority: Priority::High },
    );
    dispatch(
        &mut list,
        Commands::Add { text: "B".to_string(), due: None, priority: Priority::Low },
    );
    dispatch(&mut list, Commands::Done { id: 1 });

    let listed = dispatch(&mut list, Commands::List);

    assert_eq!(
        listed.lines,
        vec!["[ ] 2 [low] B".to_string(), "[x] 1 [high] A".to_string()]
    );
    // Listing leaves the stored order alone.
    assert_eq!(list.tasks[0].id, 1);
    assert_eq!(list.tasks[1].id, 2);
}

#[test]
fn delete_on_empty_list_is_not_found() {
    let mut list = TaskList::new();

    let removed = list.delete(1);
    assert!(!removed);

    let outcome = dispatch(&mut list, Commands::Delete { id: 1 });
    assert_eq!(outcome.lines, vec!["Task #1 not found".to_string()]);
    assert!(!outcome.save);
    assert!(list.tasks.is_empty());
    assert_eq!(list.next_id, 1);
}

#[test]
fn done_on_unknown_id_is_not_found() {
    let mut list = TaskList::new();
    dispatch(&mut list, add_command("only"));

    let outcome = dispatch(&mut list, Commands::Done { id: 4000000000 });

    assert_eq!(outcome.lines, vec!["Task #4000000000 not found".to_string()]);
    assert!(!outcome.save);
    assert!(!list.tasks[0].done);
}

#[test]
fn done_and_delete_report_success() {
    let mut list = TaskList::new();
    dispatch(&mut list, add_command("a"));
    dispatch(&mut list, add_command("b"));

    let done = dispatch(&mut list, Commands::Done { id: 2 });
    assert_eq!(done.lines, vec!["Completed task #2".to_string()]);
    assert!(done.save);

    let again = dispatch(&mut list, Commands::Done { id: 2 });
    assert_eq!(again.lines, vec!["Completed task #2".to_string()]);
    assert!(again.save);
    assert!(list.tasks[1].done);

    let deleted = dispatch(&mut list, Commands::Delete { id: 2 });
    assert_eq!(deleted.lines, vec!["Deleted task #2".to_string()]);
    assert!(deleted.save);
    assert_eq!(list.tasks.len(), 1);
}

#[test]
fn empty_list_shows_one_line() {
    let mut list = TaskList::new();

    let listed = dispatch(&mut list, Commands::List);

    assert_eq!(listed.lines, vec!["No tasks yet.".to_string()]);
    assert!(!listed.save);
}

#[test]
fn ids_keep_counting_after_deletions() {
    let mut list = TaskList::new();
    let mut given = Vec::new();
    for round in 0..5u32 {
        let outcome = dispatch(&mut list, add_command("task"));
        given.push(outcome.lines[0].clone());
        dispatch(&mut list, Commands::Delete { id: round + 1 });
        dispatch(&mut list, Commands::Done { id: round });
    }
    assert_eq!(
        given,
        vec![
            "Added task #1".to_string(),
            "Added task #2".to_string(),
            "Added task #3".to_string(),
            "Added task #4".to_string(),
            "Added task #5".to_string(),
        ]
    );
    assert!(list.tasks.is_empty());
    assert_eq!(list.next_id, 6);
}

#[test]
fn parse_date_reads_year_month_day() {
    assert_eq!(parse_date("2024-05-01"), Ok(Date::new(2024, 5, 1).unwrap()));
    assert_eq!(parse_date("2024-02-29"), Ok(Date::new(2024, 2, 29).unwrap()));
    assert_eq!(parse_date("1999-12-31"), Ok(Date::new(1999, 12, 31).unwrap()));
}

#[test]
fn parse_date_rejects_other_texts() {
    for text in ["", "tomorrow", "01/05/2024", "2024-13-01", "2023-02-29", "2024-05", "2024-05-01x"]
    {
        assert_eq!(parse_date(text), Err(DATE_ERROR.to_string()), "{}", text);
    }
    assert_eq!(DATE_ERROR, "Date must be in YYYY-MM-DD format");
}

#[test]
fn parse_date_agrees_with_chrono() {
    let texts = [
        "2024-05-01",
        "2024-5-1",
        "0001-01-01",
        "-0001-01-01",
        "+12345-06-07",
        "99999-01-01",
        "300000-01-01",
        " 2024-05-01",
        "2024-05-01 ",
        "2024 -05-01",
        "20240501",
        "2024-00-10",
        "2024-04-31",
        "1900-02-29",
        "2000-02-29",
    ];
    for text in texts {
        let expected = match chrono::NaiveDate::parse_from_str(text, DATE_FORMAT) {
            Ok(d) => Ok(Date::new(
                chrono::Datelike::year(&d),
                chrono::Datelike::month(&d),
                chrono::Datelike::day(&d),
            )
            .unwrap()),
            Err(_) => Err(DATE_ERROR.to_string()),
        };
        assert_eq!(parse_date(text), expected, "{}", text);
    }
}

#[test]
fn date_from_parsed_checks_the_calendar() {
    assert_eq!(date_from_parsed(Some((2024, 2, 29))), Ok(Date { year: 2024, month: 2, day: 29 }));
    assert_eq!(date_from_parsed(Some((2023, 2, 29))), Err(DATE_ERROR.to_string()));
    assert_eq!(date_from_parsed(Some((2024, 0, 1))), Err(DATE_ERROR.to_string()));
    assert_eq!(date_from_parsed(None), Err(DATE_ERROR.to_string()));
}
