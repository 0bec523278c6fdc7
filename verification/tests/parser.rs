use employee_directory::common::app_error::{new_system_error, ApplicationError, Kind};
use employee_directory::employee_database::{Database, DbCommand};

fn parsed(line: &str) -> (String, String) {
    match Database::parse_db_command(line) {
        Ok(DbCommand::AddEmployee(e)) => (e.name().clone(), e.dept().clone()),
        Err(e) => panic!("{}", e.describe()),
    }
}

fn refused(line: &str) -> (String, Kind) {
    match Database::parse_db_command(line) {
        Ok(_) => panic!("accepted"),
        Err(e) => (e.msg().clone(), e.kind()),
    }
}

#[test]
fn parses_jane_doe_to_sales() {
    assert_eq!(parsed("Add Jane Doe to Sales"), ("Jane Doe".to_string(), "Sales".to_string()));
}

#[test]
fn line_without_to_is_a_syntax_error() {
    assert_eq!(
        refused("Add Jane Doe Sales"),
        ("Invalid Add Syntax: [Add Jane Doe Sales]".to_string(), Kind::EmployeeDatabase)
    );
}

#[test]
fn empty_line_is_a_syntax_error() {
    assert_eq!(refused(""), ("Command Required".to_string(), Kind::EmployeeDatabase));
}

#[test]
fn blank_line_is_a_syntax_error() {
    assert_eq!(refused("   "), ("Command Required".to_string(), Kind::EmployeeDatabase));
    assert_eq!(refused(" \t \n"), ("Command Required".to_string(), Kind::EmployeeDatabase));
    assert_eq!(refused("?!.,\n"), ("Command Required".to_string(), Kind::EmployeeDatabase));
}

#[test]
fn other_first_word_is_a_syntax_error() {
    assert_eq!(
        refused("Remove Jane from Sales."),
        ("Invalid modify command: [Remove Jane from Sales]".to_string(), Kind::EmployeeDatabase)
    );
    assert_eq!(
        refused("to Sales"),
        ("Invalid modify command: [to Sales]".to_string(), Kind::EmployeeDatabase)
    );
    assert_eq!(
        refused("Adding Jane to Sales"),
        ("Invalid modify command: [Adding Jane to Sales]".to_string(), Kind::EmployeeDatabase)
    );
}

#[test]
fn keywords_match_whatever_their_case() {
    assert_eq!(parsed("ADD Sally TO Engineering"), ("Sally".to_string(), "Engineering".to_string()));
    assert_eq!(parsed("aDd Amir tO Sales"), ("Amir".to_string(), "Sales".to_string()));
}

#[test]
fn closing_marks_are_ignored() {
    assert_eq!(parsed("Add Sally to Engineering."), ("Sally".to_string(), "Engineering".to_string()));
    assert_eq!(parsed("Add Sally to Engineering?!,.\n"), ("Sally".to_string(), "Engineering".to_string()));
    assert_eq!(parsed("Add J. Doe to R.D"), ("J. Doe".to_string(), "R.D".to_string()));
    assert_eq!(
        refused("Add Jane Sales!\n"),
        ("Invalid Add Syntax: [Add Jane Sales]".to_string(), Kind::EmployeeDatabase)
    );
}

#[test]
fn first_to_separates() {
    assert_eq!(parsed("Add A to B to C"), ("A".to_string(), "B to C".to_string()));
    assert_eq!(parsed("Add Tony to To Go"), ("Tony".to_string(), "To Go".to_string()));
    assert_eq!(parsed("add to to to"), ("".to_string(), "to to".to_string()));
}

#[test]
fn either_side_may_be_empty() {
    assert_eq!(parsed("Add to Sales"), ("".to_string(), "Sales".to_string()));
    assert_eq!(parsed("Add Jane to"), ("Jane".to_string(), "".to_string()));
    assert_eq!(parsed("Add to"), ("".to_string(), "".to_string()));
}

#[test]
fn white_space_between_words_becomes_one_space() {
    assert_eq!(
        parsed("  Add   Jane\t Doe \r\n to \x0C Research  and Development  "),
        ("Jane Doe".to_string(), "Research and Development".to_string())
    );
}

#[test]
fn other_white_space_does_not_separate() {
    assert_eq!(
        parsed("Add Jane\u{a0}Doe to Sales"),
        ("Jane\u{a0}Doe".to_string(), "Sales".to_string())
    );
    assert_eq!(
        refused("Add Jane\u{a0}to Sales"),
        ("Invalid Add Syntax: [Add Jane\u{a0}to Sales]".to_string(), Kind::EmployeeDatabase)
    );
}

#[test]
fn marks_after_trailing_space_stay() {
    assert_eq!(parsed("Add Jane to Sales. "), ("Jane".to_string(), "Sales.".to_string()));
}

#[test]
fn error_is_described_by_kind_and_message() {
    let e = ApplicationError::new("boom".to_string(), Kind::EmployeeDatabase);
    assert_eq!(e.describe(), "Kind: [Employee Database], Msg: boom");
    assert_eq!(e.msg(), "boom");
    assert_eq!(e.kind(), Kind::EmployeeDatabase);
    let e = ApplicationError::new(String::new(), Kind::Command);
    assert_eq!(e.describe(), "Kind: [Command], Msg: ");
}

#[test]
fn kinds_have_labels() {
    assert_eq!(Kind::EmployeeDatabase.label(), "Employee Database");
    assert_eq!(Kind::Command.label(), "Command");
    assert_eq!(Kind::System.label(), "System");
}

#[test]
fn system_error_is_an_error_of_the_system() {
    let r: Result<u8, ApplicationError> = new_system_error("disk on fire");
    let e = r.unwrap_err();
    assert_eq!(e.kind(), Kind::System);
    assert_eq!(e.msg(), "disk on fire");
    assert_eq!(e.describe(), "Kind: [System], Msg: disk on fire");
}
