//! The list of sandboxes as a table.
use vstd::prelude::*;

use crate::sandbox::SandboxInfo;
use crate::text;

verus! {

/// The text of a table with these records, the first of which is its head.
pub uninterp spec fn table_text(records: Seq<Seq<Seq<char>>>) -> Seq<char>;

/// The texts of records.
pub open spec fn records_view(records: Seq<Vec<String>>) -> Seq<Seq<Seq<char>>> {
    records.map_values(|record: Vec<String>| text::texts(record@))
}

/// `tabled::Table` draws records as a grid, all in the default style.
#[verifier::external_body]
fn draw(records: &Vec<Vec<String>>) -> (drawn: String)
    ensures
        drawn@ == table_text(records_view(records@)),
{
    tabled::Table::from_iter(records.iter().cloned()).to_string()
}

/// The record of a sandbox.
pub open spec fn record(name: Seq<char>, state: Seq<char>) -> Seq<Seq<char>> {
    seq![name, state]
}

/// The head of the table, and a record for each of the sandboxes.
pub open spec fn sandbox_records(infos: Seq<(Seq<char>, Seq<char>)>) -> Seq<Seq<Seq<char>>> {
    seq![record("name"@, "state"@)] + infos.map_values(
        |info: (Seq<char>, Seq<char>)| record(info.0, info.1),
    )
}

/// The names and states of sandboxes.
pub open spec fn infos_view(infos: Seq<SandboxInfo>) -> Seq<(Seq<char>, Seq<char>)> {
    infos.map_values(|info: SandboxInfo| (info.name@, info.state@))
}

/// Makes the record of a sandbox.
fn record_of(name: &str, state: &str) -> (fields: Vec<String>)
    ensures
        text::texts(fields@) == record(name@, state@),
{
    let mut fields: Vec<String> = Vec::new();
    text::push_text(&mut fields, name);
    text::push_text(&mut fields, state);
    assert(text::texts(fields@) =~= record(name@, state@));
    fields
}

/// Draws the list of sandboxes.
pub fn sandbox_table(infos: &Vec<SandboxInfo>) -> (drawn: String)
    ensures
        drawn@ == table_text(sandbox_records(infos_view(infos@))),
{
    let ghost all = sandbox_records(infos_view(infos@));
    let mut records: Vec<Vec<String>> = Vec::new();
    records.push(record_of("name", "state"));
    assert(records_view(records@) =~= all.take(1));
    for i in 0..infos.len()
        invariant
            all == sandbox_records(infos_view(infos@)),
            records_view(records@) == all.take(i + 1),
    {
        let ghost before = records_view(records@);
        records.push(record_of(infos[i].name.as_str(), infos[i].state.as_str()));
        assert(records_view(records@) =~= before.push(all[i + 1]));
        assert(records_view(records@) =~= all.take(i + 2));
    }
    assert(all.take(all.len() as int) =~= all);
    draw(&records)
}

/// The table has a head and a row for each of the sandboxes, in their order, with its name
/// before its state.
pub proof fn lemma_rows(infos: &Vec<SandboxInfo>, drawn: String)
    requires
        call_ensures(sandbox_table, (infos,), drawn),
    ensures
        exists|rows: Seq<Seq<Seq<char>>>|
            {
                &&& drawn@ == #[trigger] table_text(rows)
                &&& rows.len() == infos@.len() + 1
                &&& rows[0].len() == 2 && rows[0][0] == "name"@ && rows[0][1] == "state"@
                &&& forall|i: int|
                    0 <= i < infos@.len() ==> rows[i + 1].len() == 2 && rows[i + 1][0] == (
                    #[trigger] infos@[i]).name@ && rows[i + 1][1] == infos@[i].state@
            },
{
    let view = infos_view(infos@);
    let rows = sandbox_records(view);
    assert(drawn@ == table_text(rows));
    assert(rows[0] == record("name"@, "state"@));
    assert forall|i: int| 0 <= i < infos@.len() implies rows[i + 1].len() == 2 && rows[i + 1][0]
        == (#[trigger] infos@[i]).name@ && rows[i + 1][1] == infos@[i].state@ by {
        assert(view[i] == (infos@[i].name@, infos@[i].state@));
        assert(rows[i + 1] == record(view[i].0, view[i].1));
    }
}

} // verus!
