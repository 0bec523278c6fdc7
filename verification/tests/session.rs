use employee_directory::command::{Application, Command, CommandData, DeptReport, Report, Turn};
use employee_directory::common::app_error::{ApplicationError, Kind};
use employee_directory::employee_database::{Database, DbCommand};

fn choice(line: &str) -> Result<Command, (String, Kind)> {
    Application::get_command_from_user(line).map_err(|e| (e.msg().clone(), e.kind()))
}

fn failure(r: Result<Command, ApplicationError>) -> (String, Kind) {
    match r {
        Ok(c) => panic!("{:?}", c),
        Err(e) => (e.msg().clone(), e.kind()),
    }
}

fn row(r: &DeptReport) -> (String, Option<Vec<String>>) {
    (r.name.clone(), r.employees.clone())
}

#[test]
fn choice_five_is_unknown() {
    assert_eq!(
        failure(Application::get_command_from_user("5")),
        ("Unknown command choice: 5".to_string(), Kind::Command)
    );
    assert_eq!(
        failure(Application::get_command_from_user(" 0\n")),
        ("Unknown command choice:  0\n".to_string(), Kind::Command)
    );
    assert_eq!(
        failure(Application::get_command_from_user("4294967295")),
        ("Unknown command choice: 4294967295".to_string(), Kind::Command)
    );
}

#[test]
fn q_quits_in_either_case() {
    assert!(matches!(choice("q"), Ok(Command::Quit)));
    assert!(matches!(choice("Q"), Ok(Command::Quit)));
    assert!(matches!(choice("  q \n"), Ok(Command::Quit)));
    assert!(matches!(choice("Q\r\n"), Ok(Command::Quit)));
}

#[test]
fn numbers_one_to_four_choose() {
    assert!(matches!(choice("1"), Ok(Command::ShowAllEmployees)));
    assert!(matches!(choice("2\n"), Ok(Command::GetDepartment)));
    assert!(matches!(choice(" 3 "), Ok(Command::GetAddCommand)));
    assert!(matches!(choice("4"), Ok(Command::Quit)));
    assert!(matches!(choice("+1"), Ok(Command::ShowAllEmployees)));
    assert!(matches!(choice("002"), Ok(Command::GetDepartment)));
}

#[test]
fn what_is_no_number_is_reported() {
    assert_eq!(
        choice("").unwrap_err(),
        ("cannot parse integer from empty string".to_string(), Kind::Command)
    );
    assert_eq!(
        choice("  \n").unwrap_err(),
        ("cannot parse integer from empty string".to_string(), Kind::Command)
    );
    assert_eq!(choice("one").unwrap_err(), ("invalid digit found in string".to_string(), Kind::Command));
    assert_eq!(choice("qq").unwrap_err(), ("invalid digit found in string".to_string(), Kind::Command));
    assert_eq!(choice("-1").unwrap_err(), ("invalid digit found in string".to_string(), Kind::Command));
    assert_eq!(choice("1 2").unwrap_err(), ("invalid digit found in string".to_string(), Kind::Command));
    assert_eq!(
        choice("4294967296").unwrap_err(),
        ("number too large to fit in target type".to_string(), Kind::Command)
    );
}

#[test]
fn entered_line_is_trimmed_and_must_hold_something() {
    assert_eq!(Application::get_string_from_user("  Sales \n").unwrap(), "Sales");
    assert_eq!(Application::get_string_from_user("R and D").unwrap(), "R and D");
    assert_eq!(Application::get_string_from_user("\u{a0}x\u{2003}").unwrap(), "x");
    for blank in ["", " ", "\n", " \t\r\n", "\u{3000}"] {
        let e = Application::get_string_from_user(blank).unwrap_err();
        assert_eq!(e.msg(), "User input required");
        assert_eq!(e.kind(), Kind::Command);
    }
}

#[test]
fn states_follow_each_other() {
    assert!(matches!(Command::ShowAllEmployees.next(CommandData::Nothing), Ok(Command::Begin)));
    assert!(matches!(
        Command::ShowEmployeesForDept("Sales".to_string()).next(CommandData::Nothing),
        Ok(Command::Begin)
    ));
    assert!(matches!(Command::Quit.next(CommandData::Nothing), Ok(Command::Quit)));
    assert!(matches!(
        Command::Quit.next(CommandData::String("1".to_string())),
        Ok(Command::Quit)
    ));
    match Command::GetDepartment.next(CommandData::String("Sales".to_string())) {
        Ok(Command::ShowEmployeesForDept(d)) => assert_eq!(d, "Sales"),
        other => panic!("{:?}", other),
    }
    let add = DbCommand::AddEmployee(Database::make_employee("Sales".to_string(), "Jane".to_string()));
    match Command::GetAddCommand.next(CommandData::DbCommand(add)) {
        Ok(Command::Modify(DbCommand::AddEmployee(e))) => {
            assert_eq!(e.name(), "Jane");
            assert_eq!(e.dept(), "Sales");
        }
        other => panic!("{:?}", other),
    }
    let add = DbCommand::AddEmployee(Database::make_employee("Sales".to_string(), "Jane".to_string()));
    assert!(matches!(Command::Modify(add).next(CommandData::Nothing), Ok(Command::Begin)));
    assert!(matches!(
        Command::Begin.next(CommandData::String("2".to_string())),
        Ok(Command::GetDepartment)
    ));
    assert_eq!(
        failure(Command::Begin.next(CommandData::String("9".to_string()))),
        ("Unknown command choice: 9".to_string(), Kind::Command)
    );
}

#[test]
fn wrong_data_is_an_error_of_the_system() {
    assert_eq!(
        failure(Command::GetDepartment.next(CommandData::Nothing)),
        ("Wrong data for command: GetDepartment".to_string(), Kind::System)
    );
    let add = DbCommand::AddEmployee(Database::make_employee("Sales".to_string(), "Jane".to_string()));
    assert_eq!(
        failure(Command::GetDepartment.next(CommandData::DbCommand(add))),
        ("Wrong data for command: GetDepartment".to_string(), Kind::System)
    );
    assert_eq!(
        failure(Command::GetAddCommand.next(CommandData::String("x".to_string()))),
        ("Wrong data for command: GetAddCommand".to_string(), Kind::System)
    );
    assert_eq!(
        failure(Command::Begin.next(CommandData::Nothing)),
        ("Wrong data for command: Begin".to_string(), Kind::System)
    );
    assert!(Command::GetDepartment.expect_string(CommandData::Nothing).is_err());
    assert_eq!(Command::Begin.expect_string(CommandData::String("x".to_string())).unwrap(), "x");
    assert!(Command::GetAddCommand.expect_db_command(CommandData::String("x".to_string())).is_err());
}

#[test]
fn data_error_names_the_state_as_debug_does() {
    let states = vec![
        Command::Begin,
        Command::ShowAllEmployees,
        Command::GetDepartment,
        Command::ShowEmployeesForDept("Sales".to_string()),
        Command::ShowEmployeesForDept("R \"and\" D\n\\".to_string()),
        Command::GetAddCommand,
        Command::Modify(DbCommand::AddEmployee(Database::make_employee(
            "Sales".to_string(),
            "Jane 'JD' Doe\t\u{e9}".to_string(),
        ))),
        Command::Quit,
    ];
    for state in states {
        let r: Result<u8, ApplicationError> = state.data_error();
        let e = r.unwrap_err();
        assert_eq!(e.kind(), Kind::System);
        assert_eq!(e.msg().clone(), format!("Wrong data for command: {:?}", state));
        assert_eq!(state.debug_string(), format!("{:?}", state));
    }
    let r: Result<u8, ApplicationError> =
        Command::ShowEmployeesForDept("Sales".to_string()).data_error();
    assert_eq!(
        r.unwrap_err().msg(),
        "Wrong data for command: ShowEmployeesForDept(\"Sales\")"
    );
}

#[test]
fn only_prompts_need_input() {
    assert!(Command::Begin.needs_input());
    assert!(Command::GetDepartment.needs_input());
    assert!(Command::GetAddCommand.needs_input());
    assert!(!Command::ShowAllEmployees.needs_input());
    assert!(!Command::ShowEmployeesForDept("x".to_string()).needs_input());
    assert!(!Command::Quit.needs_input());
}

#[test]
fn a_session_adds_and_lists() {
    let mut app = Application::new(Database::new());
    let mut state = Command::Begin;
    let mut shown: Vec<Report> = Vec::new();
    let lines = ["3\n", "Add Sally to Engineering.\n", "3", "add Amir to Sales", "3", "Add Bob to Engineering", "1"];
    let mut input = lines.iter();
    for _ in 0..40 {
        let line = if state.needs_input() {
            match input.next() {
                Some(l) => l,
                None => break,
            }
        } else {
            ""
        };
        let (result, report) = app.run_command(&state, line);
        shown.push(report);
        state = match Application::next_turn(result) {
            Turn::Continue(c) => c,
            other => panic!("{:?}", other),
        };
    }
    assert!(matches!(state, Command::Begin));
    let added: Vec<&String> = shown
        .iter()
        .filter_map(|r| match r {
            Report::Added(line) => Some(line),
            _ => None,
        })
        .collect();
    assert_eq!(
        added,
        vec!["Sally added to Engineering.", "Amir added to Sales.", "Bob added to Engineering."]
    );
    match shown.last() {
        Some(Report::AllEmployees(rows)) => {
            let rows: Vec<(String, Option<Vec<String>>)> = rows.iter().map(row).collect();
            assert_eq!(
                rows,
                vec![
                    ("Engineering".to_string(), Some(vec!["Bob".to_string(), "Sally".to_string()])),
                    ("Sales".to_string(), Some(vec!["Amir".to_string()])),
                ]
            );
        }
        other => panic!("{:?}", other),
    }
    let listed: Vec<String> =
        app.database().get_departments_sorted().unwrap().into_iter().map(|s| s.clone()).collect();
    assert_eq!(listed, vec!["Engineering", "Sales"]);
}

#[test]
fn run_command_on_each_state() {
    let mut app = Application::new(Database::new());
    let (r, report) = app.run_command(&Command::Begin, "q");
    assert!(matches!(r, Ok(Command::Quit)));
    assert!(matches!(report, Report::Nothing));

    let (r, report) = app.run_command(&Command::ShowAllEmployees, "");
    assert!(matches!(r, Ok(Command::Begin)));
    match report {
        Report::AllEmployees(rows) => assert!(rows.is_empty()),
        other => panic!("{:?}", other),
    }

    let (r, report) = app.run_command(&Command::GetDepartment, "  Sales \n");
    match r {
        Ok(Command::ShowEmployeesForDept(d)) => assert_eq!(d, "Sales"),
        other => panic!("{:?}", other),
    }
    assert!(matches!(report, Report::Nothing));

    let (r, report) = app.run_command(&Command::GetDepartment, " \n");
    assert_eq!(failure(r), ("User input required".to_string(), Kind::Command));
    assert!(matches!(report, Report::Nothing));

    let (r, report) = app.run_command(&Command::ShowEmployeesForDept("Sales".to_string()), "");
    assert!(matches!(r, Ok(Command::Begin)));
    match report {
        Report::Department(d) => assert_eq!(row(&d), ("Sales".to_string(), None)),
        other => panic!("{:?}", other),
    }

    let (r, _) = app.run_command(&Command::GetAddCommand, "\n");
    assert_eq!(failure(r), ("User input required".to_string(), Kind::Command));
    let (r, _) = app.run_command(&Command::GetAddCommand, "Add Jane Doe Sales\n");
    assert_eq!(
        failure(r),
        ("Invalid Add Syntax: [Add Jane Doe Sales]".to_string(), Kind::EmployeeDatabase)
    );
    let (r, _) = app.run_command(&Command::GetAddCommand, "Drop Jane\n");
    assert_eq!(failure(r), ("Invalid modify command: [Drop Jane]".to_string(), Kind::EmployeeDatabase));
    assert!(app.database().get_departments().is_none());

    let (r, report) = app.run_command(&Command::GetAddCommand, "  Add Jane Doe to Sales!\n");
    assert!(matches!(report, Report::Nothing));
    let modify = r.unwrap();
    assert!(app.database().get_departments().is_none());
    let (r, report) = app.run_command(&modify, "");
    assert!(matches!(r, Ok(Command::Begin)));
    match report {
        Report::Added(line) => assert_eq!(line, "Jane Doe added to Sales."),
        other => panic!("{:?}", other),
    }
    let (_, report) = app.run_command(&Command::ShowEmployeesForDept("Sales".to_string()), "");
    match report {
        Report::Department(d) => {
            assert_eq!(row(&d), ("Sales".to_string(), Some(vec!["Jane Doe".to_string()])))
        }
        other => panic!("{:?}", other),
    }

    let (r, report) = app.run_command(&Command::Quit, "");
    assert!(matches!(r, Ok(Command::Quit)));
    assert!(matches!(report, Report::Farewell));
}

#[test]
fn reports_are_sorted() {
    let mut db = Database::new();
    for (d, n) in [("b", "z"), ("a", "y"), ("b", "x"), ("a", "y")] {
        db.add_employee(d.to_string(), n.to_string());
    }
    let app = Application::new(db);
    let rows: Vec<(String, Option<Vec<String>>)> =
        app.report_all_employees().iter().map(row).collect();
    assert_eq!(
        rows,
        vec![
            ("a".to_string(), Some(vec!["y".to_string(), "y".to_string()])),
            ("b".to_string(), Some(vec!["x".to_string(), "z".to_string()])),
        ]
    );
    assert_eq!(row(&app.report_employees_for_dept("c")), ("c".to_string(), None));
}

#[test]
fn turns_after_a_step() {
    assert!(matches!(Application::next_turn(Ok(Command::Quit)), Turn::Finished));
    assert!(matches!(Application::next_turn(Ok(Command::Begin)), Turn::Continue(Command::Begin)));
    assert!(matches!(
        Application::next_turn(Ok(Command::GetDepartment)),
        Turn::Continue(Command::GetDepartment)
    ));
    let e = ApplicationError::new("Unknown command choice: 5".to_string(), Kind::Command);
    match Application::next_turn(Err(e)) {
        Turn::Failed(line) => {
            assert_eq!(line, "\nError - Kind: [Command], Msg: Unknown command choice: 5")
        }
        other => panic!("{:?}", other),
    }
}

fn script(lines: &[&str]) -> Vec<String> {
    lines.iter().map(|s| s.to_string()).collect()
}

fn brief(report: &Report) -> String {
    match report {
        Report::Nothing => "-".to_string(),
        Report::AllEmployees(rows) => format!("all {:?}", rows.iter().map(row).collect::<Vec<_>>()),
        Report::Department(d) => format!("dept {:?}", row(d)),
        Report::Added(line) => format!("added {}", line),
        Report::Failed(line) => format!("failed {}", line),
        Report::Farewell => "bye".to_string(),
    }
}

#[test]
fn command_loop_runs_a_whole_session() {
    let mut app = Application::new(Database::new());
    let shown = app.command_loop(&script(&[
        "1\n",
        "3\n",
        "Add Sally to Engineering\n",
        "3\n",
        "Add Amir to Sales.\n",
        "7\n",
        "2\n",
        " Sales \n",
        "2\n",
        "Marketing\n",
        "3\n",
        "Add Amir Sales\n",
        "x\n",
        "2\n",
        "\n",
        "1\n",
        "Q\n",
        "3\n",
        "Add Late to Sales\n",
    ]));
    let got: Vec<String> = shown.iter().map(brief).collect();
    let want = vec![
        "-",
        "all []",
        "-",
        "-",
        "added Sally added to Engineering.",
        "-",
        "-",
        "added Amir added to Sales.",
        "-",
        "failed \nError - Kind: [Command], Msg: Unknown command choice: 7\n",
        "-",
        "-",
        "dept (\"Sales\", Some([\"Amir\"]))",
        "-",
        "-",
        "dept (\"Marketing\", None)",
        "-",
        "-",
        "failed \nError - Kind: [Employee Database], Msg: Invalid Add Syntax: [Add Amir Sales]",
        "-",
        "failed \nError - Kind: [Command], Msg: invalid digit found in string",
        "-",
        "-",
        "failed \nError - Kind: [Command], Msg: User input required",
        "-",
        "all [(\"Engineering\", Some([\"Sally\"])), (\"Sales\", Some([\"Amir\"]))]",
        "-",
        "bye",
    ];
    assert_eq!(got, want);
    let listed: Vec<String> =
        app.database().get_employees_for_dept("Sales").unwrap().into_iter().map(|s| s.clone()).collect();
    assert_eq!(listed, vec!["Amir"]);
}

#[test]
fn command_loop_ends_where_the_lines_run_out() {
    let mut app = Application::new(Database::new());
    assert!(app.command_loop(&Vec::new()).is_empty());
    let shown = app.command_loop(&script(&["3", "Add A to B"]));
    let got: Vec<String> = shown.iter().map(brief).collect();
    assert_eq!(got, vec!["-", "-", "added A added to B."]);
    let shown = app.command_loop(&script(&["2"]));
    let got: Vec<String> = shown.iter().map(brief).collect();
    assert_eq!(got, vec!["-"]);
    let shown = app.command_loop(&script(&["4", "1"]));
    let got: Vec<String> = shown.iter().map(brief).collect();
    assert_eq!(got, vec!["-", "bye"]);
}
