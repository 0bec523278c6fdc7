//! The session: the states that a conversation with the user goes
//! through, what each line of input means in each of them, and what is to
//! be shown after each step.

use vstd::prelude::*;
use vstd::string::StringExecFns;
use crate::common::app_error::{ApplicationError, ErrorModel, Kind};
use crate::employee_database::{
    department_listing, lemma_department_listing_is, parsed_command, Database, DbCommand,
    DbCommandModel, Roster,
};
use crate::text::{
    ascii_lower, digits_from, is_digit, owned_texts, parse_number, parsed_number,
    same_ignoring_case, str_same_ignoring_case, string_order, texts, trim, trim_text,
    NumberError,
};

verus! {

/// A string as the debugging format of strings writes it: in double
/// quotes, with the characters escaped that need it.
pub uninterp spec fn debug_quoted(s: Seq<char>) -> Seq<char>;

/// Writes a string in the debugging format of `str`, by `format!` with
/// `{:?}`. The text that comes out is a function of the string alone, and
/// nothing more is claimed of it.
#[verifier::external_body]
fn quote(s: &str) -> (r: String)
    ensures
        r@ == debug_quoted(s@),
{
    format!("{:?}", s)
}

/// A state of the session as plain values.
pub enum CommandModel {
    Begin,
    ShowAllEmployees,
    GetDepartment,
    ShowEmployeesForDept(Seq<char>),
    GetAddCommand,
    Modify(DbCommandModel),
    Quit,
}

/// What is handed to a state when it is left, as plain values.
pub enum CommandDataModel {
    String(Seq<char>),
    DbCommand(DbCommandModel),
    Nothing,
}

/// The error of a user who entered nothing.
pub open spec fn input_required() -> ErrorModel {
    ErrorModel { msg: "User input required"@, kind: Kind::Command }
}

/// What a line that the user entered holds: the line without the white
/// space at its ends, which must leave something.
pub open spec fn entered(line: Seq<char>) -> Result<Seq<char>, ErrorModel> {
    if trim(line).len() == 0 {
        Err(input_required())
    } else {
        Ok(trim(line))
    }
}

/// The state that a choice from the menu leads to. The letter q, small
/// or capital, quits, whatever else the rules for numbers say; the numbers
/// one to four show all employees, ask for a department, ask for an
/// addition, and quit. Any other number is an unknown choice, and a line
/// that is neither is reported with the reason why it is no number.
pub open spec fn menu_choice(line: Seq<char>) -> Result<CommandModel, ErrorModel> {
    let choice = trim(line);
    if same_ignoring_case(choice, "q"@) {
        Ok(CommandModel::Quit)
    } else {
        match parsed_number(choice) {
            Err(e) => Err(ErrorModel { msg: e.message_text(), kind: Kind::Command }),
            Ok(n) => if n == 1 {
                Ok(CommandModel::ShowAllEmployees)
            } else if n == 2 {
                Ok(CommandModel::GetDepartment)
            } else if n == 3 {
                Ok(CommandModel::GetAddCommand)
            } else if n == 4 {
                Ok(CommandModel::Quit)
            } else {
                Err(ErrorModel { msg: "Unknown command choice: "@ + line, kind: Kind::Command })
            },
        }
    }
}

impl CommandModel {
    /// The state as the debugging format writes it.
    pub open spec fn debug_text(self) -> Seq<char> {
        match self {
            CommandModel::Begin => "Begin"@,
            CommandModel::ShowAllEmployees => "ShowAllEmployees"@,
            CommandModel::GetDepartment => "GetDepartment"@,
            CommandModel::ShowEmployeesForDept(dept) => "ShowEmployeesForDept("@ + debug_quoted(
                dept,
            ) + ")"@,
            CommandModel::GetAddCommand => "GetAddCommand"@,
            CommandModel::Modify(DbCommandModel::AddEmployee(e)) =>
                "Modify(AddEmployee(Employee { dept: "@ + debug_quoted(e.dept) + ", name: "@
                    + debug_quoted(e.name) + " }))"@,
            CommandModel::Quit => "Quit"@,
        }
    }

    /// The error of a state that was handed what it cannot use.
    pub open spec fn wrong_data(self) -> ErrorModel {
        ErrorModel { msg: "Wrong data for command: "@ + self.debug_text(), kind: Kind::System }
    }

    /// Whether the state waits for a line from the user.
    pub open spec fn awaits_input(self) -> bool {
        self is Begin || self is GetDepartment || self is GetAddCommand
    }

    /// The state that follows this one when it is handed `data`. The
    /// menu takes the line that was entered, the prompt for a department
    /// takes its name, the prompt for an addition takes the command; a
    /// state that shows or changes something returns to the menu, and
    /// after quitting nothing follows but quitting.
    pub open spec fn next(self, data: CommandDataModel) -> Result<CommandModel, ErrorModel> {
        match self {
            CommandModel::Begin => match data {
                CommandDataModel::String(line) => menu_choice(line),
                _ => Err(self.wrong_data()),
            },
            CommandModel::ShowAllEmployees => Ok(CommandModel::Begin),
            CommandModel::GetDepartment => match data {
                CommandDataModel::String(dept) => Ok(CommandModel::ShowEmployeesForDept(dept)),
                _ => Err(self.wrong_data()),
            },
            CommandModel::ShowEmployeesForDept(_) => Ok(CommandModel::Begin),
            CommandModel::GetAddCommand => match data {
                CommandDataModel::DbCommand(c) => Ok(CommandModel::Modify(c)),
                _ => Err(self.wrong_data()),
            },
            CommandModel::Modify(_) => Ok(CommandModel::Begin),
            CommandModel::Quit => Ok(CommandModel::Quit),
        }
    }

    /// What the state is handed when the user has entered `line`, or the
    /// error that the line is.
    pub open spec fn data_from(self, line: Seq<char>) -> Result<CommandDataModel, ErrorModel> {
        match self {
            CommandModel::Begin => Ok(CommandDataModel::String(line)),
            CommandModel::GetDepartment => match entered(line) {
                Ok(dept) => Ok(CommandDataModel::String(dept)),
                Err(e) => Err(e),
            },
            CommandModel::GetAddCommand => match entered(line) {
                Ok(text) => match parsed_command(text) {
                    Ok(c) => Ok(CommandDataModel::DbCommand(c)),
                    Err(e) => Err(e),
                },
                Err(e) => Err(e),
            },
            _ => Ok(CommandDataModel::Nothing),
        }
    }

    /// The state that follows this one when the user has entered `line`.
    pub open spec fn step(self, line: Seq<char>) -> Result<CommandModel, ErrorModel> {
        match self.data_from(line) {
            Ok(data) => self.next(data),
            Err(e) => Err(e),
        }
    }

    /// What running the state on the roster `m` shows.
    pub open spec fn report(self, m: Roster) -> ReportModel {
        match self {
            CommandModel::ShowAllEmployees => ReportModel::AllEmployees(full_report(m)),
            CommandModel::ShowEmployeesForDept(dept) => ReportModel::Department(
                dept_report(m, dept),
            ),
            CommandModel::Modify(c) => ReportModel::Added(c.confirmation()),
            CommandModel::Quit => ReportModel::Farewell,
            _ => ReportModel::Nothing,
        }
    }

    /// The roster after the state was run on the roster `m`: only an
    /// addition changes it.
    pub open spec fn effect(self, m: Roster) -> Roster {
        match self {
            CommandModel::Modify(c) => c.apply(m),
            _ => m,
        }
    }
}

/// A state of the session.
#[derive(Debug)]
pub enum Command {
    /// The menu is shown and a choice awaited.
    Begin,
    /// All employees are to be shown.
    ShowAllEmployees,
    /// The name of a department is awaited.
    GetDepartment,
    /// The employees of a department are to be shown.
    ShowEmployeesForDept(String),
    /// The line that adds an employee is awaited.
    GetAddCommand,
    /// The store is to be changed.
    Modify(DbCommand),
    /// The session is over.
    Quit,
}

impl View for Command {
    type V = CommandModel;

    open spec fn view(&self) -> CommandModel {
        match self {
            Command::Begin => CommandModel::Begin,
            Command::ShowAllEmployees => CommandModel::ShowAllEmployees,
            Command::GetDepartment => CommandModel::GetDepartment,
            Command::ShowEmployeesForDept(dept) => CommandModel::ShowEmployeesForDept(dept@),
            Command::GetAddCommand => CommandModel::GetAddCommand,
            Command::Modify(c) => CommandModel::Modify(c@),
            Command::Quit => CommandModel::Quit,
        }
    }
}

/// What is handed to a state when it is left.
#[derive(Debug)]
pub enum CommandData {
    String(String),
    DbCommand(DbCommand),
    Nothing,
}

impl View for CommandData {
    type V = CommandDataModel;

    open spec fn view(&self) -> CommandDataModel {
        match self {
            CommandData::String(s) => CommandDataModel::String(s@),
            CommandData::DbCommand(c) => CommandDataModel::DbCommand(c@),
            CommandData::Nothing => CommandDataModel::Nothing,
        }
    }
}

/// The letter q quits, whatever the rules for numbers say of the line.
pub proof fn lemma_q_quits(line: Seq<char>)
    requires
        same_ignoring_case(trim(line), "q"@),
    ensures
        menu_choice(line) == Ok::<CommandModel, ErrorModel>(CommandModel::Quit),
{
}

/// A number that is none of one to four is an unknown choice, reported
/// with the line as it was entered.
pub proof fn lemma_unknown_choice(line: Seq<char>, n: u32)
    requires
        parsed_number(trim(line)) == Ok::<u32, NumberError>(n),
        n < 1 || n > 4,
    ensures
        menu_choice(line) == Err::<CommandModel, ErrorModel>(
            ErrorModel { msg: "Unknown command choice: "@ + line, kind: Kind::Command },
        ),
{
    reveal_strlit("q");
    let choice = trim(line);
    if same_ignoring_case(choice, "q"@) {
        assert(choice.len() == 1);
        assert(ascii_lower(choice[0]) == ascii_lower("q"@[0]));
        assert(!is_digit(choice[0]));
        assert(choice[0] != '+');
        reveal_with_fuel(digits_from, 2);
    }
}

/// The outcome of a step as plain values.
pub open spec fn outcome(r: Result<Command, ApplicationError>) -> Result<CommandModel, ErrorModel> {
    match r {
        Ok(c) => Ok(c@),
        Err(e) => Err(e@),
    }
}

impl Command {
    /// The state that follows this one when it is handed `data`.
    pub fn next(&self, data: CommandData) -> (r: Result<Command, ApplicationError>)
        ensures
            outcome(r) == self@.next(data@),
    {
        match self {
            Command::Begin => {
                let line: String = self.expect_string(data)?;
                Application::get_command_from_user(line.as_str())
            },
            Command::ShowAllEmployees => Ok(Command::Begin),
            Command::GetDepartment => Ok(Command::ShowEmployeesForDept(self.expect_string(data)?)),
            Command::ShowEmployeesForDept(_) => Ok(Command::Begin),
            Command::GetAddCommand => Ok(Command::Modify(self.expect_db_command(data)?)),
            Command::Modify(_) => Ok(Command::Begin),
            Command::Quit => Ok(Command::Quit),
        }
    }

    /// The string in `data`; anything else there is an error.
    pub fn expect_string(&self, data: CommandData) -> (r: Result<String, ApplicationError>)
        ensures
            match r {
                Ok(s) => data@ == CommandDataModel::String(s@),
                Err(e) => !(data@ is String) && e@ == self@.wrong_data(),
            },
    {
        match data {
            CommandData::String(string_data) => Ok(string_data),
            _ => self.data_error(),
        }
    }

    /// The command in `data`; anything else there is an error.
    pub fn expect_db_command(&self, data: CommandData) -> (r: Result<DbCommand, ApplicationError>)
        ensures
            match r {
                Ok(c) => data@ == CommandDataModel::DbCommand(c@),
                Err(e) => !(data@ is DbCommand) && e@ == self@.wrong_data(),
            },
    {
        match data {
            CommandData::DbCommand(command) => Ok(command),
            _ => self.data_error(),
        }
    }

    /// The state as the debugging format writes it.
    pub fn debug_string(&self) -> (r: String)
        ensures
            r@ == self@.debug_text(),
    {
        match self {
            Command::Begin => String::from_str("Begin"),
            Command::ShowAllEmployees => String::from_str("ShowAllEmployees"),
            Command::GetDepartment => String::from_str("GetDepartment"),
            Command::ShowEmployeesForDept(dept) => {
                let mut out: String = String::from_str("ShowEmployeesForDept(");
                out.append(quote(dept.as_str()).as_str());
                out.append(")");
                out
            },
            Command::GetAddCommand => String::from_str("GetAddCommand"),
            Command::Modify(DbCommand::AddEmployee(e)) => {
                let mut out: String = String::from_str("Modify(AddEmployee(Employee { dept: ");
                out.append(quote(e.dept().as_str()).as_str());
                out.append(", name: ");
                out.append(quote(e.name().as_str()).as_str());
                out.append(" }))");
                out
            },
            Command::Quit => String::from_str("Quit"),
        }
    }

    /// The error of a state that was handed what it cannot use.
    pub fn data_error<T>(&self) -> (r: Result<T, ApplicationError>)
        ensures
            r matches Err(e) && e@ == self@.wrong_data(),
    {
        let mut msg: String = String::from_str("Wrong data for command: ");
        msg.append(self.debug_string().as_str());
        Err(ApplicationError::new(msg, Kind::System))
    }

    /// Whether the state waits for a line from the user.
    pub fn needs_input(&self) -> (r: bool)
        ensures
            r == self@.awaits_input(),
    {
        match self {
            Command::Begin | Command::GetDepartment | Command::GetAddCommand => true,
            _ => false,
        }
    }
}

/// What is shown of one department, as plain values.
pub struct DeptReportModel {
    pub name: Seq<char>,
    pub employees: Option<Seq<Seq<char>>>,
}

/// What is shown of the department `dept` of the roster `m`: its
/// employees in ascending order, or none where `m` has no such department.
pub open spec fn dept_report(m: Roster, dept: Seq<char>) -> DeptReportModel {
    DeptReportModel {
        name: dept,
        employees: if m.contains_key(dept) {
            Some(m[dept].sort_by(string_order()))
        } else {
            None
        },
    }
}

/// What is shown of all of the roster `m`: its departments in ascending
/// order, each with its employees in ascending order.
pub open spec fn full_report(m: Roster) -> Seq<DeptReportModel> {
    Seq::new(
        department_listing(m).len(),
        |k: int| dept_report(m, department_listing(m)[k]),
    )
}

/// What is to be shown after a step, as plain values.
pub enum ReportModel {
    Nothing,
    AllEmployees(Seq<DeptReportModel>),
    Department(DeptReportModel),
    Added(Seq<char>),
    Failed(Seq<char>),
    Farewell,
}

/// How the session goes on after a step, as plain values.
pub enum TurnModel {
    Continue(CommandModel),
    Failed(Seq<char>),
    Finished,
}

/// How the session goes on after a step that ended in `r`: it is over
/// when the step led to quitting, goes on in the state that the step led
/// to, and after an error shows the error and returns to the menu.
pub open spec fn turn_of(r: Result<CommandModel, ErrorModel>) -> TurnModel {
    match r {
        Ok(CommandModel::Quit) => TurnModel::Finished,
        Ok(c) => TurnModel::Continue(c),
        Err(e) => TurnModel::Failed("\nError - "@ + e.text()),
    }
}

/// What is shown of one department: its name and its employees, or none
/// where the store has no such department.
#[derive(Debug)]
pub struct DeptReport {
    pub name: String,
    pub employees: Option<Vec<String>>,
}

impl View for DeptReport {
    type V = DeptReportModel;

    open spec fn view(&self) -> DeptReportModel {
        DeptReportModel {
            name: self.name@,
            employees: match self.employees {
                Some(v) => Some(owned_texts(v@)),
                None => None,
            },
        }
    }
}

/// The rows as plain values.
pub open spec fn row_models(rows: Seq<DeptReport>) -> Seq<DeptReportModel> {
    Seq::new(rows.len(), |k: int| rows[k]@)
}

/// What is to be shown after a step.
#[derive(Debug)]
pub enum Report {
    /// Nothing.
    Nothing,
    /// All departments with their employees; no row where the store is
    /// empty.
    AllEmployees(Vec<DeptReport>),
    /// One department with its employees.
    Department(DeptReport),
    /// The line that confirms an addition.
    Added(String),
    /// The line that reports an error.
    Failed(String),
    /// The session is over.
    Farewell,
}

impl View for Report {
    type V = ReportModel;

    open spec fn view(&self) -> ReportModel {
        match self {
            Report::Nothing => ReportModel::Nothing,
            Report::AllEmployees(rows) => ReportModel::AllEmployees(row_models(rows@)),
            Report::Department(row) => ReportModel::Department(row@),
            Report::Added(line) => ReportModel::Added(line@),
            Report::Failed(line) => ReportModel::Failed(line@),
            Report::Farewell => ReportModel::Farewell,
        }
    }
}

/// How the session goes on after a step.
#[derive(Debug)]
pub enum Turn {
    /// In this state.
    Continue(Command),
    /// At the menu, after this line was shown.
    Failed(String),
    /// Not at all.
    Finished,
}

impl View for Turn {
    type V = TurnModel;

    open spec fn view(&self) -> TurnModel {
        match self {
            Turn::Continue(c) => TurnModel::Continue(c@),
            Turn::Failed(line) => TurnModel::Failed(line@),
            Turn::Finished => TurnModel::Finished,
        }
    }
}

/// The reports as plain values.
pub open spec fn report_models(reports: Seq<Report>) -> Seq<ReportModel> {
    Seq::new(reports.len(), |k: int| reports[k]@)
}

/// A session that is in the state `state` over the roster `m`, and whose
/// user will enter the lines of `lines` from index `i` on: the roster at
/// its end, and what it shows. A state that waits for input takes the next
/// line, and the session ends where there is none; every state is run and
/// what it reports is shown; an error is shown and leads back to the menu;
/// and when the user quits, the farewell is shown.
pub open spec fn session(m: Roster, state: CommandModel, lines: Seq<Seq<char>>, i: int) -> (
    Roster,
    Seq<ReportModel>,
)
    decreases lines.len() - i, (if state.awaits_input() { 0nat } else { 1nat }),
{
    if i < 0 || (state.awaits_input() && i >= lines.len()) {
        (m, Seq::empty())
    } else {
        let line = if state.awaits_input() { lines[i] } else { Seq::empty() };
        let j = if state.awaits_input() { i + 1 } else { i };
        let after = state.effect(m);
        let shown = seq![state.report(m)];
        match turn_of(state.step(line)) {
            TurnModel::Finished => (after, shown.push(ReportModel::Farewell)),
            TurnModel::Continue(c) => {
                let rest = session(after, c, lines, j);
                (rest.0, shown + rest.1)
            },
            TurnModel::Failed(text) => {
                let rest = session(after, CommandModel::Begin, lines, j);
                (rest.0, shown.push(ReportModel::Failed(text)) + rest.1)
            },
        }
    }
}

/// Copies the strings that the references point to.
fn to_owned_strings(v: &Vec<&String>) -> (r: Vec<String>)
    ensures
        owned_texts(r@) == texts(v@),
{
    let mut out: Vec<String> = Vec::new();
    let mut k: usize = 0;
    while k < v.len()
        invariant
            k <= v@.len(),
            out@.len() == k,
            forall|j: int| 0 <= j < k ==> (#[trigger] out@[j])@ == v@[j]@,
        decreases v@.len() - k,
    {
        out.push(String::from_str(v[k].as_str()));
        k += 1;
    }
    assert(owned_texts(out@) =~= texts(v@));
    out
}

/// A session over a store.
pub struct Application {
    database: Database,
}

impl View for Application {
    type V = Roster;

    closed spec fn view(&self) -> Roster {
        self.database@
    }
}

impl Application {
    /// A session over `database`.
    pub fn new(database: Database) -> (r: Self)
        ensures
            r@ == database@,
    {
        Self { database }
    }

    /// The store.
    pub fn database(&self) -> (r: &Database)
        ensures
            r@ == self@,
    {
        &self.database
    }

    /// What a line that the user entered holds.
    pub fn get_string_from_user(line: &str) -> (r: Result<String, ApplicationError>)
        ensures
            match r {
                Ok(s) => entered(line@) == Ok::<Seq<char>, ErrorModel>(s@),
                Err(e) => entered(line@) == Err::<Seq<char>, ErrorModel>(e@),
            },
    {
        let string_data: &str = trim_text(line);
        if string_data.is_empty() {
            Err(ApplicationError::new(String::from_str("User input required"), Kind::Command))
        } else {
            Ok(String::from_str(string_data))
        }
    }

    /// The state that the choice from the menu on `line` leads to.
    pub fn get_command_from_user(line: &str) -> (r: Result<Command, ApplicationError>)
        ensures
            outcome(r) == menu_choice(line@),
    {
        let choice: &str = trim_text(line);
        if str_same_ignoring_case("q", choice) {
            return Ok(Command::Quit);
        }
        assert(same_ignoring_case("q"@, choice@) == same_ignoring_case(choice@, "q"@));
        match parse_number(choice) {
            Err(e) => Err(ApplicationError::new(e.message(), Kind::Command)),
            Ok(n) => if n == 1 {
                Ok(Command::ShowAllEmployees)
            } else if n == 2 {
                Ok(Command::GetDepartment)
            } else if n == 3 {
                Ok(Command::GetAddCommand)
            } else if n == 4 {
                Ok(Command::Quit)
            } else {
                let mut msg: String = String::from_str("Unknown command choice: ");
                msg.append(line);
                Err(ApplicationError::new(msg, Kind::Command))
            },
        }
    }

    /// What is shown of the department `dept`.
    pub fn report_employees_for_dept(&self, dept: &str) -> (r: DeptReport)
        ensures
            r@ == dept_report(self@, dept@),
    {
        let employees: Option<Vec<String>> = match self.database.get_employees_for_dept_sorted(
            dept,
        ) {
            Some(v) => Some(to_owned_strings(&v)),
            None => None,
        };
        DeptReport { name: String::from_str(dept), employees }
    }

    /// What is shown of all departments: a row for each, in ascending
    /// order, and no row where the store is empty.
    pub fn report_all_employees(&self) -> (r: Vec<DeptReport>)
        ensures
            row_models(r@) == full_report(self@),
    {
        let mut out: Vec<DeptReport> = Vec::new();
        match self.database.get_departments_sorted() {
            None => {
                proof {
                    let none = Seq::<Seq<char>>::empty();
                    assert(none.to_set() =~= self@.dom());
                    lemma_department_listing_is(self@, none);
                    assert(row_models(out@) =~= full_report(self@));
                }
            },
            Some(departments) => {
                let mut k: usize = 0;
                while k < departments.len()
                    invariant
                        k <= departments@.len(),
                        out@.len() == k,
                        forall|j: int|
                            0 <= j < k ==> (#[trigger] out@[j])@ == dept_report(
                                self@,
                                departments@[j]@,
                            ),
                    decreases departments@.len() - k,
                {
                    out.push(self.report_employees_for_dept(departments[k].as_str()));
                    k += 1;
                }
                assert(row_models(out@) =~= full_report(self@));
            },
        }
        out
    }

    /// Runs the state `command`, for which the user has entered `line`
    /// where the state waits for input, and returns the state that follows,
    /// or the error that leads back to the menu, together with what is to
    /// be shown.
    pub fn run_command(&mut self, command: &Command, line: &str) -> (r: (
        Result<Command, ApplicationError>,
        Report,
    ))
        ensures
            final(self)@ == command@.effect(old(self)@),
            outcome(r.0) == command@.step(line@),
            r.1@ == command@.report(old(self)@),
    {
        let mut command_data: CommandData = CommandData::Nothing;
        let mut report: Report = Report::Nothing;
        match command {
            Command::Begin => {
                command_data = CommandData::String(String::from_str(line));
            },
            Command::ShowAllEmployees => {
                report = Report::AllEmployees(self.report_all_employees());
            },
            Command::GetDepartment => {
                match Self::get_string_from_user(line) {
                    Ok(dept) => {
                        command_data = CommandData::String(dept);
                    },
                    Err(e) => {
                        return (Err(e), report);
                    },
                }
            },
            Command::ShowEmployeesForDept(dept) => {
                report = Report::Department(self.report_employees_for_dept(dept.as_str()));
            },
            Command::GetAddCommand => {
                match Self::get_string_from_user(line) {
                    Ok(text) => match Database::parse_db_command(text.as_str()) {
                        Ok(db_command) => {
                            command_data = CommandData::DbCommand(db_command);
                        },
                        Err(e) => {
                            return (Err(e), report);
                        },
                    },
                    Err(e) => {
                        return (Err(e), report);
                    },
                }
            },
            Command::Modify(db_command) => {
                report = Report::Added(self.database.modify_database(db_command));
            },
            Command::Quit => {
                report = Report::Farewell;
            },
        }
        (command.next(command_data), report)
    }

    /// How the session goes on after a step that ended in `result`.
    pub fn next_turn(result: Result<Command, ApplicationError>) -> (r: Turn)
        ensures
            r@ == turn_of(outcome(result)),
    {
        match result {
            Ok(Command::Quit) => Turn::Finished,
            Ok(command) => Turn::Continue(command),
            Err(e) => {
                let mut line: String = String::from_str("\nError - ");
                line.append(e.describe().as_str());
                Turn::Failed(line)
            },
        }
    }

    /// Runs a session from the menu on, in which the user enters `lines`
    /// in turn, until the user quits or the lines run out, and returns
    /// what is to be shown.
    pub fn command_loop(&mut self, lines: &Vec<String>) -> (r: Vec<Report>)
        ensures
            final(self)@ == session(old(self)@, CommandModel::Begin, owned_texts(lines@), 0).0,
            report_models(r@) == session(
                old(self)@,
                CommandModel::Begin,
                owned_texts(lines@),
                0,
            ).1,
    {
        let ghost start = self@;
        let ghost all = owned_texts(lines@);
        let mut next_command: Command = Command::Begin;
        let mut shown: Vec<Report> = Vec::new();
        let mut i: usize = 0;
        assert(report_models(shown@) + session(start, CommandModel::Begin, all, 0).1 =~= session(
            start,
            CommandModel::Begin,
            all,
            0,
        ).1);
        loop
            invariant
                i <= lines@.len(),
                start == old(self)@,
                all == owned_texts(lines@),
                session(start, CommandModel::Begin, all, 0).0 == session(
                    self@,
                    next_command@,
                    all,
                    i as int,
                ).0,
                session(start, CommandModel::Begin, all, 0).1 == report_models(shown@) + session(
                    self@,
                    next_command@,
                    all,
                    i as int,
                ).1,
            decreases lines@.len() - i, (if next_command@.awaits_input() { 0nat } else { 1nat }),
        {
            let awaits: bool = next_command.needs_input();
            if awaits && i >= lines.len() {
                assert(report_models(shown@) + Seq::<ReportModel>::empty() =~= report_models(
                    shown@,
                ));
                return shown;
            }
            let ghost before = self@;
            let ghost state = next_command@;
            let ghost so_far = report_models(shown@);
            let ghost at = i as int;
            proof {
                reveal_strlit("");
            }
            let line: &str = if awaits {
                lines[i].as_str()
            } else {
                ""
            };
            if awaits {
                i += 1;
            }
            assert(line@ =~= if state.awaits_input() { all[at] } else { Seq::<char>::empty() });
            let (result, report) = self.run_command(&next_command, line);
            shown.push(report);
            assert(report_models(shown@) =~= so_far.push(state.report(before)));
            match Self::next_turn(result) {
                Turn::Finished => {
                    shown.push(Report::Farewell);
                    assert(report_models(shown@) =~= so_far + seq![state.report(before)].push(
                        ReportModel::Farewell,
                    ));
                    return shown;
                },
                Turn::Continue(command) => {
                    next_command = command;
                    assert(report_models(shown@) + session(self@, next_command@, all, i as int).1
                        =~= so_far + (seq![state.report(before)] + session(
                        self@,
                        next_command@,
                        all,
                        i as int,
                    ).1));
                },
                Turn::Failed(text) => {
                    shown.push(Report::Failed(text));
                    next_command = Command::Begin;
                    assert(report_models(shown@) + session(self@, next_command@, all, i as int).1
                        =~= so_far + (seq![state.report(before)].push(ReportModel::Failed(text@))
                        + session(self@, next_command@, all, i as int).1));
                },
            }
        }
    }
}

} // verus!
