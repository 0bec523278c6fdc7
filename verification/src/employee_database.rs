//! The store: departments and the employees of each, with the command
//! that adds an employee and the parser of its written form.

use vstd::prelude::*;
use vstd::string::StringExecFns;
use vstd::relations::sorted_by;
use crate::common::app_error::{ApplicationError, ErrorModel, Kind};
use crate::text::{
    first_match, join_words, joined, lemma_string_order_total, owned_texts, same_ignoring_case,
    sort_refs, split_words, str_same_ignoring_case, string_le, string_order,
    strip_closing_marks, strip_marks, texts, tokens,
};

verus! {

/// What the store holds: for each department its employees, in the order
/// in which they were added.
pub type Roster = Map<Seq<char>, Seq<Seq<char>>>;

/// The roster after `name` was added to `dept`: the name stands at the end
/// of the department's employees, and a department that was not there
/// begins with it.
pub open spec fn added(m: Roster, dept: Seq<char>, name: Seq<char>) -> Roster {
    if m.contains_key(dept) {
        m.insert(dept, m[dept].push(name))
    } else {
        m.insert(dept, seq![name])
    }
}

/// Whether `s` is in strictly ascending order.
pub open spec fn ascending(s: Seq<Seq<char>>) -> bool {
    forall|i: int, j: int|
        0 <= i < j < s.len() ==> string_le(#[trigger] s[i], #[trigger] s[j]) && s[i] != s[j]
}

/// Whether `out` lists the departments of `m`: each once, in ascending
/// order.
pub open spec fn is_department_listing(m: Roster, out: Seq<Seq<char>>) -> bool {
    ascending(out) && out.to_set() == m.dom()
}

/// An employee as plain values.
pub struct EmployeeModel {
    pub dept: Seq<char>,
    pub name: Seq<char>,
}

/// An employee: a name in a department.
#[derive(Debug)]
pub struct Employee {
    dept: String,
    name: String,
}

impl View for Employee {
    type V = EmployeeModel;

    closed spec fn view(&self) -> EmployeeModel {
        EmployeeModel { dept: self.dept@, name: self.name@ }
    }
}

impl Employee {
    /// The department.
    pub fn dept(&self) -> (r: &String)
        ensures
            r@ == self@.dept,
    {
        &self.dept
    }

    /// The name.
    pub fn name(&self) -> (r: &String)
        ensures
            r@ == self@.name,
    {
        &self.name
    }
}

/// A command on the store as plain values.
pub enum DbCommandModel {
    AddEmployee(EmployeeModel),
}

impl DbCommandModel {
    /// The roster after the command.
    pub open spec fn apply(self, m: Roster) -> Roster {
        match self {
            DbCommandModel::AddEmployee(e) => added(m, e.dept, e.name),
        }
    }

    /// The line that confirms the command.
    pub open spec fn confirmation(self) -> Seq<char> {
        match self {
            DbCommandModel::AddEmployee(e) => e.name + " added to "@ + e.dept + "."@,
        }
    }
}

/// A command on the store.
#[derive(Debug)]
pub enum DbCommand {
    AddEmployee(Employee),
}

impl View for DbCommand {
    type V = DbCommandModel;

    open spec fn view(&self) -> DbCommandModel {
        match self {
            DbCommand::AddEmployee(e) => DbCommandModel::AddEmployee(e@),
        }
    }
}

/// The failure of a command line, with its message.
pub open spec fn syntax_error(msg: Seq<char>) -> Result<DbCommandModel, ErrorModel> {
    Err(ErrorModel { msg: msg, kind: Kind::EmployeeDatabase })
}

/// What a command line means. Closing marks at its end are ignored and
/// its words are told apart by white space. A line without a word, one
/// that does not begin with the word "add", and one that has no word "to"
/// after it, are errors. Otherwise the words before the first "to" are the
/// name and those after it the department, either of which may be empty.
/// Both keywords are matched whatever their case.
pub open spec fn parsed_command(line: Seq<char>) -> Result<DbCommandModel, ErrorModel> {
    let trimmed = strip_marks(line);
    let words = tokens(trimmed);
    let to = first_match(words, "to"@, 1);
    if words.len() == 0 {
        syntax_error("Command Required"@)
    } else if !same_ignoring_case(words[0], "add"@) {
        syntax_error("Invalid modify command: ["@ + trimmed + "]"@)
    } else if to >= words.len() {
        syntax_error("Invalid Add Syntax: ["@ + trimmed + "]"@)
    } else {
        Ok(
            DbCommandModel::AddEmployee(
                EmployeeModel {
                    dept: joined(words.subrange(to + 1, words.len() as int)),
                    name: joined(words.subrange(1, to)),
                },
            ),
        )
    }
}

/// The listing of the departments of `m`: each once, in ascending order.
pub open spec fn department_listing(m: Roster) -> Seq<Seq<char>> {
    choose|out: Seq<Seq<char>>| is_department_listing(m, out)
}

struct Department {
    name: String,
    staff: Vec<String>,
}

spec fn has_entry(entries: Seq<Department>, d: Seq<char>) -> bool {
    exists|i: int| 0 <= i < entries.len() && (#[trigger] entries[i]).name@ == d
}

spec fn entry_index(entries: Seq<Department>, d: Seq<char>) -> int {
    choose|i: int| 0 <= i < entries.len() && (#[trigger] entries[i]).name@ == d
}

spec fn roster_of(entries: Seq<Department>) -> Roster {
    Map::new(
        |d: Seq<char>| has_entry(entries, d),
        |d: Seq<char>| owned_texts(entries[entry_index(entries, d)].staff@),
    )
}

spec fn distinct_names(entries: Seq<Department>) -> bool {
    forall|i: int, j: int|
        0 <= i < j < entries.len() ==> (#[trigger] entries[i]).name@ != (#[trigger] entries[j]).name@
}

spec fn all_staffed(entries: Seq<Department>) -> bool {
    forall|i: int| 0 <= i < entries.len() ==> (#[trigger] entries[i]).staff@.len() > 0
}

proof fn lemma_entry_index(entries: Seq<Department>, i: int)
    requires
        distinct_names(entries),
        0 <= i < entries.len(),
    ensures
        has_entry(entries, entries[i].name@),
        entry_index(entries, entries[i].name@) == i,
{
    let k = entry_index(entries, entries[i].name@);
    assert(0 <= k < entries.len() && entries[k].name@ == entries[i].name@);
    if k < i {
        assert(entries[k].name@ != entries[i].name@);
    } else if i < k {
        assert(entries[i].name@ != entries[k].name@);
    }
}

proof fn lemma_roster_push(entries: Seq<Department>, d: Department)
    requires
        distinct_names(entries),
        !has_entry(entries, d.name@),
    ensures
        distinct_names(entries.push(d)),
        roster_of(entries.push(d)) == roster_of(entries).insert(d.name@, owned_texts(d.staff@)),
{
    let after = entries.push(d);
    assert forall|i: int, j: int| 0 <= i < j < after.len() implies (#[trigger] after[i]).name@ != (
    #[trigger] after[j]).name@ by {
        if j == entries.len() {
            assert(entries[i].name@ != d.name@);
        } else {
            assert(entries[i].name@ != entries[j].name@);
        }
    }
    let want = roster_of(entries).insert(d.name@, owned_texts(d.staff@));
    assert forall|k: Seq<char>| roster_of(after).contains_key(k) <==> want.contains_key(k) by {
        if has_entry(after, k) {
            let i = entry_index(after, k);
            if i < entries.len() {
                assert(entries[i].name@ == k);
            }
        }
        if has_entry(entries, k) {
            let i = entry_index(entries, k);
            assert(after[i].name@ == k);
        }
        if k == d.name@ {
            assert(after[entries.len() as int].name@ == k);
        }
    }
    assert forall|k: Seq<char>| roster_of(after).contains_key(k) implies roster_of(after)[k]
        == want[k] by {
        let i = entry_index(after, k);
        lemma_entry_index(after, i);
        if i < entries.len() {
            assert(entries[i].name@ == k);
            lemma_entry_index(entries, i);
        }
    }
    assert(roster_of(after) =~= want);
}

proof fn lemma_roster_update(entries: Seq<Department>, i: int, d: Department)
    requires
        distinct_names(entries),
        0 <= i < entries.len(),
        d.name@ == entries[i].name@,
    ensures
        distinct_names(entries.update(i, d)),
        roster_of(entries.update(i, d)) == roster_of(entries).insert(
            d.name@,
            owned_texts(d.staff@),
        ),
{
    let after = entries.update(i, d);
    assert forall|a: int, b: int| 0 <= a < b < after.len() implies (#[trigger] after[a]).name@ != (
    #[trigger] after[b]).name@ by {
        assert(entries[a].name@ != entries[b].name@);
    }
    let want = roster_of(entries).insert(d.name@, owned_texts(d.staff@));
    assert forall|k: Seq<char>| roster_of(after).contains_key(k) <==> want.contains_key(k) by {
        if has_entry(after, k) {
            let j = entry_index(after, k);
            assert(entries[j].name@ == k);
        }
        if has_entry(entries, k) {
            let j = entry_index(entries, k);
            assert(after[j].name@ == k);
        }
        if k == d.name@ {
            assert(after[i].name@ == k);
        }
    }
    assert forall|k: Seq<char>| roster_of(after).contains_key(k) implies roster_of(after)[k]
        == want[k] by {
        let j = entry_index(after, k);
        lemma_entry_index(after, j);
        assert(entries[j].name@ == k);
        lemma_entry_index(entries, j);
    }
    assert(roster_of(after) =~= want);
}

/// The store of departments and their employees.
pub struct Database {
    db: Vec<Department>,
}

impl View for Database {
    type V = Roster;

    closed spec fn view(&self) -> Roster {
        roster_of(self.db@)
    }
}

impl Database {
    #[verifier::type_invariant]
    spec fn well_formed(&self) -> bool {
        distinct_names(self.db@) && all_staffed(self.db@)
    }

    /// The empty store.
    pub fn new() -> (r: Database)
        ensures
            r@ == Roster::empty(),
    {
        let r = Database { db: Vec::new() };
        assert(r@ =~= Roster::empty());
        r
    }

    /// Where the department named `dept` stands, if it is there.
    fn find(&self, dept: &str) -> (r: Option<usize>)
        ensures
            match r {
                Some(i) => i < self.db@.len() && self.db@[i as int].name@ == dept@,
                None => !has_entry(self.db@, dept@),
            },
    {
        let key: String = String::from_str(dept);
        let mut i: usize = 0;
        while i < self.db.len()
            invariant
                i <= self.db@.len(),
                key@ == dept@,
                forall|k: int| 0 <= k < i ==> (#[trigger] self.db@[k]).name@ != dept@,
            decreases self.db@.len() - i,
        {
            if self.db[i].name == key {
                return Some(i);
            }
            i += 1;
        }
        None
    }

    /// Adds `name` to the employees of `dept`, which is created if it is
    /// not there, and returns the line that confirms it.
    pub fn add_employee(&mut self, dept: String, name: String) -> (r: String)
        ensures
            final(self)@ == added(old(self)@, dept@, name@),
            r@ == name@ + " added to "@ + dept@ + "."@,
    {
        proof {
            use_type_invariant(&*self);
        }
        let mut line: String = name.clone();
        line.append(" added to ");
        line.append(dept.as_str());
        line.append(".");
        let ghost before = self.db@;
        let found: Option<usize> = self.find(dept.as_str());
        let mut entries: Vec<Department> = Vec::new();
        core::mem::swap(&mut self.db, &mut entries);
        match found {
            Some(i) => {
                let mut entry: Department = entries.remove(i);
                entry.staff.push(name);
                proof {
                    lemma_entry_index(before, i as int);
                    lemma_roster_update(before, i as int, entry);
                    assert(owned_texts(entry.staff@) =~= owned_texts(before[i as int].staff@).push(
                        name@,
                    ));
                    assert(before.remove(i as int).insert(i as int, entry) =~= before.update(
                        i as int,
                        entry,
                    ));
                }
                entries.insert(i, entry);
            },
            None => {
                let mut staff: Vec<String> = Vec::new();
                staff.push(name);
                let entry = Department { name: dept, staff };
                proof {
                    lemma_roster_push(before, entry);
                    assert(owned_texts(entry.staff@) =~= seq![name@]);
                }
                entries.push(entry);
            },
        }
        self.db = entries;
        line
    }

    /// An employee of `dept` called `name`.
    pub fn make_employee(dept: String, name: String) -> (r: Employee)
        ensures
            r@ == (EmployeeModel { dept: dept@, name: name@ }),
    {
        Employee { dept, name }
    }

    /// The departments, each once, in no stated order; `None` where the
    /// store is empty.
    pub fn get_departments(&self) -> (r: Option<Vec<&String>>)
        ensures
            r is None <==> self@ == Roster::empty(),
            r matches Some(v) ==> texts(v@).no_duplicates() && texts(v@).to_set() == self@.dom(),
    {
        proof {
            use_type_invariant(self);
        }
        if self.db.len() == 0 {
            assert(self@ =~= Roster::empty());
            return None;
        }
        let mut out: Vec<&String> = Vec::new();
        let mut i: usize = 0;
        while i < self.db.len()
            invariant
                i <= self.db@.len(),
                out@.len() == i,
                forall|k: int| 0 <= k < i ==> (#[trigger] out@[k])@ == self.db@[k].name@,
            decreases self.db@.len() - i,
        {
            out.push(&self.db[i].name);
            i += 1;
        }
        proof {
            let names = texts(out@);
            assert forall|a: int, b: int| 0 <= a < names.len() && 0 <= b < names.len() && a
                != b implies names[a] != names[b] by {
                if a < b {
                    assert(self.db@[a].name@ != self.db@[b].name@);
                } else {
                    assert(self.db@[b].name@ != self.db@[a].name@);
                }
            }
            assert forall|d: Seq<char>| names.to_set().contains(d) <==> self@.dom().contains(
                d,
            ) by {
                if names.contains(d) {
                    let k = choose|k: int| 0 <= k < names.len() && names[k] == d;
                    assert(self.db@[k].name@ == d);
                }
                if has_entry(self.db@, d) {
                    let k = entry_index(self.db@, d);
                    assert(names[k] == d);
                }
            }
            assert(names.to_set() =~= self@.dom());
            assert(has_entry(self.db@, self.db@[0].name@));
            assert(self@.contains_key(self.db@[0].name@));
        }
        Some(out)
    }

    /// The departments, each once, in ascending order; `None` where the
    /// store is empty.
    pub fn get_departments_sorted(&self) -> (r: Option<Vec<&String>>)
        ensures
            r is None <==> self@ == Roster::empty(),
            r matches Some(v) ==> is_department_listing(self@, texts(v@)) && texts(v@)
                == department_listing(self@),
    {
        match self.get_departments() {
            None => None,
            Some(depts) => {
                let sorted: Vec<&String> = sort_refs(depts);
                proof {
                    lemma_sort_of_distinct(texts(depts@));
                    lemma_department_listing_is(self@, texts(sorted@));
                }
                Some(sorted)
            },
        }
    }

    /// The employees of `dept` in the order in which they were added;
    /// `None` where the store has no such department. A department that is
    /// there has at least one employee.
    pub fn get_employees_for_dept(&self, dept: &str) -> (r: Option<Vec<&String>>)
        ensures
            r is Some <==> self@.contains_key(dept@),
            r matches Some(v) ==> texts(v@) == self@[dept@] && v@.len() > 0,
    {
        proof {
            use_type_invariant(self);
        }
        match self.find(dept) {
            None => None,
            Some(i) => {
                let staff: &Vec<String> = &self.db[i].staff;
                let mut out: Vec<&String> = Vec::new();
                let mut k: usize = 0;
                while k < staff.len()
                    invariant
                        k <= staff@.len(),
                        out@.len() == k,
                        forall|j: int| 0 <= j < k ==> (#[trigger] out@[j])@ == staff@[j]@,
                    decreases staff@.len() - k,
                {
                    out.push(&staff[k]);
                    k += 1;
                }
                proof {
                    lemma_entry_index(self.db@, i as int);
                    assert(texts(out@) =~= owned_texts(staff@));
                }
                Some(out)
            },
        }
    }

    /// The employees of `dept` in ascending order; `None` where the store
    /// has no such department.
    pub fn get_employees_for_dept_sorted(&self, dept: &str) -> (r: Option<Vec<&String>>)
        ensures
            r is Some <==> self@.contains_key(dept@),
            r matches Some(v) ==> texts(v@) == self@[dept@].sort_by(string_order()),
    {
        match self.get_employees_for_dept(dept) {
            None => None,
            Some(employees) => Some(sort_refs(employees)),
        }
    }

    /// Carries out a command and returns the line that confirms it.
    pub fn modify_database(&mut self, cmd: &DbCommand) -> (r: String)
        ensures
            final(self)@ == cmd@.apply(old(self)@),
            r@ == cmd@.confirmation(),
    {
        match cmd {
            DbCommand::AddEmployee(employee) => {
                self.add_employee(employee.dept.clone(), employee.name.clone())
            },
        }
    }

    /// Reads a command line of the form `Add <name> to <department>`.
    pub fn parse_db_command(command_str: &str) -> (r: Result<DbCommand, ApplicationError>)
        ensures
            match r {
                Ok(c) => parsed_command(command_str@) == Ok::<DbCommandModel, ErrorModel>(c@),
                Err(e) => parsed_command(command_str@) == Err::<DbCommandModel, ErrorModel>(e@),
            },
    {
        let trimmed: &str = strip_closing_marks(command_str);
        let words: Vec<String> = split_words(trimmed);
        if words.len() == 0 {
            return Err(
                ApplicationError::new(String::from_str("Command Required"), Kind::EmployeeDatabase),
            );
        }
        if !str_same_ignoring_case(words[0].as_str(), "add") {
            let mut msg: String = String::from_str("Invalid modify command: [");
            msg.append(trimmed);
            msg.append("]");
            return Err(ApplicationError::new(msg, Kind::EmployeeDatabase));
        }
        let mut idx: usize = 1;
        while idx < words.len() && !str_same_ignoring_case(words[idx].as_str(), "to")
            invariant
                1 <= idx <= words@.len(),
                first_match(owned_texts(words@), "to"@, 1) == first_match(
                    owned_texts(words@),
                    "to"@,
                    idx as int,
                ),
            decreases words@.len() - idx,
        {
            idx += 1;
        }
        if idx == words.len() {
            let mut msg: String = String::from_str("Invalid Add Syntax: [");
            msg.append(trimmed);
            msg.append("]");
            return Err(ApplicationError::new(msg, Kind::EmployeeDatabase));
        }
        let name: String = join_words(&words, 1, idx);
        let dept: String = join_words(&words, idx + 1, words.len());
        Ok(DbCommand::AddEmployee(Database::make_employee(dept, name)))
    }
}

/// Sorting a sequence in which nothing occurs twice gives a strictly
/// ascending sequence of the same items.
pub proof fn lemma_sort_of_distinct(items: Seq<Seq<char>>)
    requires
        items.no_duplicates(),
    ensures
        ascending(items.sort_by(string_order())),
        items.sort_by(string_order()).to_set() == items.to_set(),
{
    broadcast use vstd::seq_lib::group_to_multiset_ensures;

    let out = items.sort_by(string_order());
    lemma_string_order_total();
    items.lemma_sort_by_ensures(string_order());
    items.lemma_multiset_has_no_duplicates();
    out.lemma_multiset_has_no_duplicates_conv();
    assert forall|i: int, j: int| 0 <= i < j < out.len() implies string_le(
        #[trigger] out[i],
        #[trigger] out[j],
    ) && out[i] != out[j] by {
        assert(string_order()(out[i], out[j]));
    }
    assert forall|x: Seq<char>| out.to_set().contains(x) <==> items.to_set().contains(x) by {
        assert(out.contains(x) <==> out.to_multiset().count(x) > 0);
        assert(items.contains(x) <==> items.to_multiset().count(x) > 0);
    }
    assert(out.to_set() =~= items.to_set());
}

/// A store has one listing of its departments: asked twice of the same
/// store, the answers are equal.
pub proof fn lemma_department_listing_unique(m: Roster, a: Seq<Seq<char>>, b: Seq<Seq<char>>)
    requires
        is_department_listing(m, a),
        is_department_listing(m, b),
    ensures
        a == b,
{
    broadcast use vstd::seq_lib::group_to_multiset_ensures;

    lemma_string_order_total();
    assert(sorted_by(a, string_order())) by {
        assert forall|i: int, j: int| 0 <= i < j < a.len() implies #[trigger] string_order()(
            a[i],
            a[j],
        ) by {
            assert(string_le(a[i], a[j]));
        }
    }
    assert(sorted_by(b, string_order())) by {
        assert forall|i: int, j: int| 0 <= i < j < b.len() implies #[trigger] string_order()(
            b[i],
            b[j],
        ) by {
            assert(string_le(b[i], b[j]));
        }
    }
    assert(a.no_duplicates());
    assert(b.no_duplicates());
    a.lemma_multiset_has_no_duplicates();
    b.lemma_multiset_has_no_duplicates();
    assert forall|x: Seq<char>| a.to_multiset().count(x) == b.to_multiset().count(x) by {
        assert(a.contains(x) <==> a.to_multiset().count(x) > 0);
        assert(b.contains(x) <==> b.to_multiset().count(x) > 0);
        assert(a.to_set().contains(x) <==> b.to_set().contains(x));
    }
    assert(a.to_multiset() =~= b.to_multiset());
    vstd::seq_lib::lemma_sorted_unique(a, b, string_order());
}

/// A sequence that lists the departments of a store is the listing of its
/// departments.
pub proof fn lemma_department_listing_is(m: Roster, out: Seq<Seq<char>>)
    requires
        is_department_listing(m, out),
    ensures
        out == department_listing(m),
{
    lemma_department_listing_unique(m, out, department_listing(m));
}

/// The roster after the additions `entries`, each a department and a
/// name, were made to the empty store in turn.
pub open spec fn after_adds(entries: Seq<(Seq<char>, Seq<char>)>) -> Roster
    decreases entries.len(),
{
    if entries.len() == 0 {
        Roster::empty()
    } else {
        added(after_adds(entries.drop_last()), entries.last().0, entries.last().1)
    }
}

/// After any additions the store's departments are exactly those that an
/// addition named, and a department that none named is not there.
pub proof fn lemma_departments_after_adds(entries: Seq<(Seq<char>, Seq<char>)>)
    ensures
        forall|d: Seq<char>|
            after_adds(entries).contains_key(d) <==> exists|i: int|
                0 <= i < entries.len() && (#[trigger] entries[i]).0 == d,
    decreases entries.len(),
{
    if entries.len() > 0 {
        let init = entries.drop_last();
        let last = entries.last();
        lemma_departments_after_adds(init);
        assert(after_adds(entries) == added(after_adds(init), last.0, last.1));
        assert forall|d: Seq<char>| after_adds(entries).contains_key(d) implies exists|i: int|
            0 <= i < entries.len() && (#[trigger] entries[i]).0 == d by {
            if d == last.0 {
                assert(entries[entries.len() - 1].0 == d);
            } else {
                assert(after_adds(init).contains_key(d));
                let i = choose|i: int| 0 <= i < init.len() && (#[trigger] init[i]).0 == d;
                assert(entries[i].0 == d);
            }
        }
        assert forall|d: Seq<char>|
            (exists|i: int|
                0 <= i < entries.len() && (#[trigger] entries[i]).0 == d) implies after_adds(
            entries,
        ).contains_key(d) by {
            let i = choose|i: int| 0 <= i < entries.len() && (#[trigger] entries[i]).0 == d;
            if i < init.len() {
                assert(init[i].0 == d);
                assert(after_adds(init).contains_key(d));
            }
        }
    }
}

/// The departments that the additions name, listed as a store lists its
/// departments, are what a store that was built by these additions
/// returns: each department that an addition named, once, in ascending
/// order, and no other.
pub proof fn lemma_listing_after_adds(entries: Seq<(Seq<char>, Seq<char>)>, out: Seq<Seq<char>>)
    requires
        is_department_listing(after_adds(entries), out),
    ensures
        ascending(out),
        forall|d: Seq<char>|
            out.contains(d) <==> exists|i: int|
                0 <= i < entries.len() && (#[trigger] entries[i]).0 == d,
{
    lemma_departments_after_adds(entries);
    assert forall|d: Seq<char>| out.contains(d) <==> after_adds(entries).contains_key(d) by {
        assert(out.to_set().contains(d) <==> after_adds(entries).dom().contains(d));
    }
}

/// A department that no addition named is not in the store.
pub proof fn lemma_unknown_department_after_adds(
    entries: Seq<(Seq<char>, Seq<char>)>,
    dept: Seq<char>,
)
    requires
        forall|i: int| 0 <= i < entries.len() ==> (#[trigger] entries[i]).0 != dept,
    ensures
        !after_adds(entries).contains_key(dept),
{
    lemma_departments_after_adds(entries);
}

/// The names that the additions give to the department `dept`, in their
/// order.
pub open spec fn names_added_to(entries: Seq<(Seq<char>, Seq<char>)>, dept: Seq<char>) -> Seq<
    Seq<char>,
>
    decreases entries.len(),
{
    if entries.len() == 0 {
        Seq::empty()
    } else if entries.last().0 == dept {
        names_added_to(entries.drop_last(), dept).push(entries.last().1)
    } else {
        names_added_to(entries.drop_last(), dept)
    }
}

/// After any additions a department of the store holds the names that
/// were added to it, in the order of the additions.
pub proof fn lemma_employees_after_adds(entries: Seq<(Seq<char>, Seq<char>)>, dept: Seq<char>)
    requires
        after_adds(entries).contains_key(dept),
    ensures
        after_adds(entries)[dept] == names_added_to(entries, dept),
    decreases entries.len(),
{
    if entries.len() > 0 {
        let init = entries.drop_last();
        if after_adds(init).contains_key(dept) {
            lemma_employees_after_adds(init, dept);
        } else {
            lemma_unnamed_after_adds(init, dept);
        }
    }
}

/// A department that is not in the store was given no name.
pub proof fn lemma_unnamed_after_adds(entries: Seq<(Seq<char>, Seq<char>)>, dept: Seq<char>)
    requires
        !after_adds(entries).contains_key(dept),
    ensures
        names_added_to(entries, dept) == Seq::<Seq<char>>::empty(),
    decreases entries.len(),
{
    if entries.len() > 0 {
        lemma_unnamed_after_adds(entries.drop_last(), dept);
    }
}

/// After any additions every department of the store has an employee.
pub proof fn lemma_staffed_after_adds(entries: Seq<(Seq<char>, Seq<char>)>)
    ensures
        forall|d: Seq<char>|
            after_adds(entries).contains_key(d) ==> (#[trigger] after_adds(entries)[d]).len() > 0,
    decreases entries.len(),
{
    if entries.len() > 0 {
        let init = entries.drop_last();
        let last = entries.last();
        lemma_staffed_after_adds(init);
        assert forall|d: Seq<char>| after_adds(entries).contains_key(d) implies (
        #[trigger] after_adds(entries)[d]).len() > 0 by {
            if d != last.0 {
                assert(after_adds(init).contains_key(d));
                assert(after_adds(init)[d].len() > 0);
            }
        }
    }
}

} // verus!
