//! The layout of the telemetry table, and its repair.
//!
//! A store written by an earlier version may hold the telemetry columns in
//! another order, or lack some. Such a table is rebuilt: every expected column
//! is selected from it, a null in place of each that it lacks, into a table
//! that takes its place.

use crate::aggregate::text_views;
use crate::text::same_text;
use vstd::prelude::*;
use vstd::string::*;

verus! {

/// The number of columns of the telemetry table.
pub const COLUMN_COUNT: usize = 26;

/// The columns of the telemetry table, in order.
pub open spec fn canonical() -> Seq<Seq<char>> {
    seq![
        "flight_id"@,
        "timestamp_ms"@,
        "latitude"@,
        "longitude"@,
        "altitude"@,
        "height"@,
        "vps_height"@,
        "altitude_abs"@,
        "speed"@,
        "velocity_x"@,
        "velocity_y"@,
        "velocity_z"@,
        "pitch"@,
        "roll"@,
        "yaw"@,
        "gimbal_pitch"@,
        "gimbal_roll"@,
        "gimbal_yaw"@,
        "battery_percent"@,
        "battery_voltage"@,
        "battery_current"@,
        "battery_temp"@,
        "flight_mode"@,
        "gps_signal"@,
        "satellites"@,
        "rc_signal"@,
    ]
}

/// Where the value of a column of the rebuilt table comes from.
#[derive(Debug, Clone, Copy, PartialEq, Eq, Structural)]
pub enum ColumnSource {
    /// The column of this name in the table as it is.
    Existing,
    /// Nothing: the table as it is has no such column.
    Null,
}

/// Where the value of the column `name` comes from, for a table that has the
/// columns `actual`.
pub open spec fn source_of(actual: Seq<Seq<char>>, name: Seq<char>) -> ColumnSource {
    if actual.contains(name) {
        ColumnSource::Existing
    } else {
        ColumnSource::Null
    }
}

/// What is selected for the column `name`.
pub open spec fn select_item(name: Seq<char>, source: ColumnSource) -> Seq<char> {
    match source {
        ColumnSource::Existing => name,
        ColumnSource::Null => "NULL AS "@ + name,
    }
}

/// What is selected for each expected column, in order, from a table that has
/// the columns `actual`.
pub open spec fn select_items(actual: Seq<Seq<char>>) -> Seq<Seq<char>> {
    Seq::new(
        canonical().len(),
        |c: int| select_item(canonical()[c], source_of(actual, canonical()[c])),
    )
}

/// The first `n` of `items`, with a comma and a space between each two.
pub open spec fn joined(items: Seq<Seq<char>>, n: int) -> Seq<char>
    decreases n,
{
    if n <= 0 {
        Seq::empty()
    } else if n == 1 {
        items[0]
    } else {
        joined(items, n - 1) + ", "@ + items[n - 1]
    }
}

/// The select list that rebuilds a table with the columns `actual`.
pub open spec fn select_list_text(actual: Seq<Seq<char>>) -> Seq<char> {
    joined(select_items(actual), canonical().len() as int)
}

/// The statements that rebuild a table with the columns `actual`, as one
/// transaction.
pub open spec fn rebuild_text(actual: Seq<Seq<char>>) -> Seq<char> {
    "BEGIN TRANSACTION; CREATE TABLE telemetry_new AS SELECT "@ + select_list_text(actual)
        + " FROM telemetry; DROP TABLE telemetry; ALTER TABLE telemetry_new RENAME TO telemetry; CREATE INDEX IF NOT EXISTS idx_telemetry_flight_time ON telemetry(flight_id, timestamp_ms); COMMIT;"@
}

/// Lists the columns of the telemetry table, in order.
pub fn canonical_columns() -> (columns: Vec<String>)
    ensures
        text_views(columns@) == canonical(),
{
    let mut columns: Vec<String> = Vec::new();
    columns.push(String::from_str("flight_id"));
    columns.push(String::from_str("timestamp_ms"));
    columns.push(String::from_str("latitude"));
    columns.push(String::from_str("longitude"));
    columns.push(String::from_str("altitude"));
    columns.push(String::from_str("height"));
    columns.push(String::from_str("vps_height"));
    columns.push(String::from_str("altitude_abs"));
    columns.push(String::from_str("speed"));
    columns.push(String::from_str("velocity_x"));
    columns.push(String::from_str("velocity_y"));
    columns.push(String::from_str("velocity_z"));
    columns.push(String::from_str("pitch"));
    columns.push(String::from_str("roll"));
    columns.push(String::from_str("yaw"));
    columns.push(String::from_str("gimbal_pitch"));
    columns.push(String::from_str("gimbal_roll"));
    columns.push(String::from_str("gimbal_yaw"));
    columns.push(String::from_str("battery_percent"));
    columns.push(String::from_str("battery_voltage"));
    columns.push(String::from_str("battery_current"));
    columns.push(String::from_str("battery_temp"));
    columns.push(String::from_str("flight_mode"));
    columns.push(String::from_str("gps_signal"));
    columns.push(String::from_str("satellites"));
    columns.push(String::from_str("rc_signal"));
    assert(text_views(columns@) =~= canonical());
    columns
}

/// The type of the column at `c` of the telemetry table.
///
/// The two columns of the key are whole numbers and never null; battery
/// charge, fix quality, satellite count and signal strength are whole
/// numbers, the flight mode is text, and every other column is a measurement.
pub open spec fn column_type(c: int) -> Seq<char> {
    if c == 0 || c == 1 {
        "BIGINT NOT NULL"@
    } else if c == 18 || c == 23 || c == 24 || c == 25 {
        "INTEGER"@
    } else if c == 22 {
        "VARCHAR"@
    } else {
        "DOUBLE"@
    }
}

/// The definition of each column of the telemetry table: its name, a space
/// and its type.
pub open spec fn column_definitions() -> Seq<Seq<char>> {
    Seq::new(canonical().len(), |c: int| canonical()[c] + " "@ + column_type(c))
}

/// The statement that creates the telemetry table, unless there is one: the
/// expected columns in the expected order, keyed by flight and timestamp.
pub open spec fn create_table_text() -> Seq<char> {
    "CREATE TABLE IF NOT EXISTS telemetry ("@ + joined(
        column_definitions(),
        canonical().len() as int,
    ) + ", PRIMARY KEY (flight_id, timestamp_ms));"@
}

/// Names the type of the column at `c` of the telemetry table.
fn column_type_text(c: usize) -> (text: &'static str)
    ensures
        text@ == column_type(c as int),
{
    if c == 0 || c == 1 {
        "BIGINT NOT NULL"
    } else if c == 18 || c == 23 || c == 24 || c == 25 {
        "INTEGER"
    } else if c == 22 {
        "VARCHAR"
    } else {
        "DOUBLE"
    }
}

/// Writes the statement that creates the telemetry table.
pub fn create_telemetry_table() -> (statement: String)
    ensures
        statement@ == create_table_text(),
{
    let expected: Vec<String> = canonical_columns();
    let ghost items = column_definitions();
    let mut list: String = String::new();
    let mut c: usize = 0;
    while c < expected.len()
        invariant
            c <= expected@.len(),
            text_views(expected@) == canonical(),
            items == column_definitions(),
            list@ == joined(items, c as int),
        decreases expected@.len() - c,
    {
        assert(text_views(expected@)[c as int] == expected@[c as int]@);
        let ghost before = list@;
        if c > 0 {
            list.append(", ");
        }
        let ghost between = list@;
        list.append(expected[c].as_str());
        list.append(" ");
        list.append(column_type_text(c));
        proof {
            assert(list@ =~= between + items[c as int]);
            if c == 0 {
                assert(between =~= Seq::<char>::empty());
                assert(list@ =~= items[0]);
            } else {
                assert(between == before + ", "@);
            }
        }
        c += 1;
    }
    let mut statement: String = String::from_str("CREATE TABLE IF NOT EXISTS telemetry (");
    statement.append(list.as_str());
    statement.append(", PRIMARY KEY (flight_id, timestamp_ms));");
    statement
}

/// Tells whether a table has a column of the name `name`.
fn has_column(actual: &Vec<String>, name: &str) -> (found: bool)
    ensures
        found == text_views(actual@).contains(name@),
{
    let mut i: usize = 0;
    while i < actual.len()
        invariant
            i <= actual@.len(),
            forall|k: int| 0 <= k < i ==> text_views(actual@)[k] != name@,
        decreases actual@.len() - i,
    {
        if same_text(actual[i].as_str(), name) {
            assert(text_views(actual@)[i as int] == name@);
            return true;
        }
        i += 1;
    }
    false
}

/// Tells whether a table has the expected columns in the expected order.
pub fn order_matches(actual: &Vec<String>) -> (same: bool)
    ensures
        same == (text_views(actual@) == canonical()),
{
    let expected: Vec<String> = canonical_columns();
    if actual.len() != expected.len() {
        return false;
    }
    let mut i: usize = 0;
    while i < expected.len()
        invariant
            i <= expected@.len(),
            actual@.len() == expected@.len(),
            text_views(expected@) == canonical(),
            forall|k: int| 0 <= k < i ==> text_views(actual@)[k] == canonical()[k],
        decreases expected@.len() - i,
    {
        if !same_text(actual[i].as_str(), expected[i].as_str()) {
            assert(text_views(actual@)[i as int] != text_views(expected@)[i as int]);
            return false;
        }
        assert(text_views(actual@)[i as int] == text_views(expected@)[i as int]);
        i += 1;
    }
    assert(text_views(actual@) =~= canonical());
    true
}

/// Decides, for each expected column in order, where its value comes from.
pub fn rebuild_plan(actual: &Vec<String>) -> (plan: Vec<ColumnSource>)
    ensures
        plan@.len() == canonical().len(),
        forall|c: int|
            0 <= c < plan@.len() ==> #[trigger] plan@[c] == source_of(
                text_views(actual@),
                canonical()[c],
            ),
{
    let expected: Vec<String> = canonical_columns();
    let mut plan: Vec<ColumnSource> = Vec::new();
    let mut c: usize = 0;
    while c < expected.len()
        invariant
            c <= expected@.len(),
            text_views(expected@) == canonical(),
            plan@.len() == c,
            forall|k: int|
                0 <= k < c ==> #[trigger] plan@[k] == source_of(
                    text_views(actual@),
                    canonical()[k],
                ),
        decreases expected@.len() - c,
    {
        assert(text_views(expected@)[c as int] == expected@[c as int]@);
        if has_column(actual, expected[c].as_str()) {
            plan.push(ColumnSource::Existing);
        } else {
            plan.push(ColumnSource::Null);
        }
        c += 1;
    }
    plan
}

/// Writes the select list that rebuilds a table with the columns `actual`.
pub fn select_list(actual: &Vec<String>) -> (list: String)
    ensures
        list@ == select_list_text(text_views(actual@)),
{
    let expected: Vec<String> = canonical_columns();
    let plan: Vec<ColumnSource> = rebuild_plan(actual);
    let ghost items = select_items(text_views(actual@));
    let mut list: String = String::new();
    let mut c: usize = 0;
    while c < expected.len()
        invariant
            c <= expected@.len(),
            text_views(expected@) == canonical(),
            plan@.len() == canonical().len(),
            items == select_items(text_views(actual@)),
            forall|k: int|
                0 <= k < plan@.len() ==> #[trigger] plan@[k] == source_of(
                    text_views(actual@),
                    canonical()[k],
                ),
            list@ == joined(items, c as int),
        decreases expected@.len() - c,
    {
        assert(text_views(expected@)[c as int] == expected@[c as int]@);
        let ghost before = list@;
        if c > 0 {
            list.append(", ");
        }
        let ghost between = list@;
        match plan[c] {
            ColumnSource::Existing => {
                list.append(expected[c].as_str());
            },
            ColumnSource::Null => {
                list.append("NULL AS ");
                list.append(expected[c].as_str());
            },
        }
        proof {
            assert(items[c as int] == select_item(canonical()[c as int], plan@[c as int]));
            assert(list@ =~= between + items[c as int]);
            if c == 0 {
                assert(between =~= Seq::<char>::empty());
                assert(list@ =~= items[0]);
            } else {
                assert(between == before + ", "@);
            }
        }
        c += 1;
    }
    list
}

/// Decides whether the telemetry table is to be rebuilt, and gives the
/// statements that rebuild it.
///
/// `actual` are the columns of the table as it is, in order. Nothing is to do
/// where they are the expected columns in the expected order.
pub fn ensure_telemetry_column_order(actual: &Vec<String>) -> (script: Option<String>)
    ensures
        match script {
            None => text_views(actual@) == canonical(),
            Some(statements) => text_views(actual@) != canonical() && statements@ == rebuild_text(
                text_views(actual@),
            ),
        },
{
    if order_matches(actual) {
        return None;
    }
    let mut statements: String = String::from_str(
        "BEGIN TRANSACTION; CREATE TABLE telemetry_new AS SELECT ",
    );
    statements.append(select_list(actual).as_str());
    statements.append(
        " FROM telemetry; DROP TABLE telemetry; ALTER TABLE telemetry_new RENAME TO telemetry; CREATE INDEX IF NOT EXISTS idx_telemetry_flight_time ON telemetry(flight_id, timestamp_ms); COMMIT;",
    );
    Some(statements)
}

/// The select list of a rebuild names every expected column, in order: by its
/// own name where the table has it, and as a null under its name where the
/// table lacks it.
pub proof fn lemma_select_list_names_every_column(actual: Seq<Seq<char>>, c: int)
    requires
        0 <= c < canonical().len(),
    ensures
        select_items(actual).len() == canonical().len(),
        actual.contains(canonical()[c]) ==> select_items(actual)[c] == canonical()[c],
        !actual.contains(canonical()[c]) ==> select_items(actual)[c] == "NULL AS "@
            + canonical()[c],
{
}

} // verus!
