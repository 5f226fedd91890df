//! Persistence format for truth tables: an ordered sequence of pairs of an
//! input pattern, rendered as a fixed-width string of '0'/'1' characters
//! (most significant pin first), and the output vector. The pair list is
//! carried as JSON text; the string rendering is a presentation detail and
//! loses nothing, so a reloaded table denotes exactly the mapping that was
//! saved.

use vstd::prelude::*;
use crate::table::TruthTable;
use crate::table::bools_to_chars;
use crate::table::chars_to_bools;
use crate::table::lemma_chars_round_trip;
use crate::table::map_of_rows;
use crate::table::rows_view;
use crate::table::string_to_vec_bool;
use crate::table::vec_bool_to_string;

verus! {

/// The JSON layer failed to render or to parse the pair list.
#[derive(Debug)]
pub struct TableFormatError {
    pub msg: String,
}

/// Rows with each input pattern rendered as its '0'/'1' text.
pub open spec fn encoded_rows(rows: Seq<(Seq<bool>, Seq<bool>)>) -> Seq<(Seq<char>, Seq<bool>)> {
    rows.map_values(|r: (Seq<bool>, Seq<bool>)| (bools_to_chars(r.0), r.1))
}

/// Rows read back from their rendered form.
pub open spec fn decoded_rows(entries: Seq<(Seq<char>, Seq<bool>)>) -> Seq<(Seq<bool>, Seq<bool>)> {
    entries.map_values(|p: (Seq<char>, Seq<bool>)| (chars_to_bools(p.0), p.1))
}

/// The pair list a vector of (text, outputs) pairs denotes.
pub open spec fn entries_view(e: Seq<(String, Vec<bool>)>) -> Seq<(Seq<char>, Seq<bool>)> {
    e.map_values(|p: (String, Vec<bool>)| (p.0@, p.1@))
}

/// The JSON text for a pair list. The text itself is not modelled; it is a
/// function of the pairs alone, which is all the round trip needs.
pub uninterp spec fn json_of(entries: Seq<(Seq<char>, Seq<bool>)>) -> Seq<char>;

/// Relies on serde_json::to_string: rendering a list of (string, boolean
/// vector) pairs as JSON text, a function of the values alone. On this type
/// it always succeeds: the writer is a byte vector and the string, boolean
/// and sequence serializers never report an error.
#[verifier::external_body]
fn entries_to_json(entries: &Vec<(String, Vec<bool>)>) -> (r: Result<String, TableFormatError>)
    ensures
        r is Ok,
        r matches Ok(s) ==> s@ == json_of(entries_view(entries@)),
{
    match serde_json::to_string(entries) {
        Ok(s) => Ok(s),
        Err(e) => Err(TableFormatError { msg: format!("{}", e) }),
    }
}

/// Relies on serde_json::from_str undoing serde_json::to_string: for lists
/// of (string, boolean vector) pairs the JSON rendering is faithful, so text
/// equal to the rendering of some pairs parses back to exactly those pairs.
#[verifier::external_body]
fn entries_from_json(s: &str) -> (r: Result<Vec<(String, Vec<bool>)>, TableFormatError>)
    ensures
        r matches Ok(v) ==> (forall|e: Seq<(Seq<char>, Seq<bool>)>|
            s@ == #[trigger] json_of(e) ==> entries_view(v@) == e),
        r is Err ==> (forall|e: Seq<(Seq<char>, Seq<bool>)>| s@ != #[trigger] json_of(e)),
{
    match serde_json::from_str::<Vec<(String, Vec<bool>)>>(s) {
        Ok(v) => Ok(v),
        Err(e) => Err(TableFormatError { msg: format!("{}", e) }),
    }
}

/// Serialize a truth table to its persistence text: the rows in order, each
/// input pattern rendered as a fixed-width '0'/'1' string. Rendering never
/// fails.
pub fn truth_table_to_json(table: &TruthTable) -> (r: Result<String, TableFormatError>)
    ensures
        r is Ok,
        r matches Ok(s) ==> s@ == json_of(encoded_rows(rows_view(table.rows@))),
{
    let mut entries: Vec<(String, Vec<bool>)> = Vec::new();
    let mut i: usize = 0;
    while i < table.rows.len()
        invariant
            i <= table.rows@.len(),
            entries@.len() == i,
            forall|j: int| #![all_triggers]
                0 <= j < i ==> entries@[j].0@ == bools_to_chars(table.rows@[j].0@)
                    && entries@[j].1@ == table.rows@[j].1@,
        decreases table.rows@.len() - i,
    {
        let k = vec_bool_to_string(&table.rows[i].0);
        let v = table.rows[i].1.clone();
        assert(v@ =~= table.rows@[i as int].1@);
        entries.push((k, v));
        i = i + 1;
    }
    proof {
        assert(entries_view(entries@) =~= encoded_rows(rows_view(table.rows@)));
    }
    entries_to_json(&entries)
}

/// Parse persistence text back into a truth table. The rows are replayed in
/// order, so text that renders some rows reconstructs exactly the mapping
/// those rows denote; parsing fails only on text that renders no row list.
pub fn truth_table_from_json(s: &str) -> (r: Result<TruthTable, TableFormatError>)
    ensures
        forall|rows: Seq<(Seq<bool>, Seq<bool>)>| s@ == #[trigger] json_of(encoded_rows(rows))
            ==> (r matches Ok(t) && t.wf() && t@ == map_of_rows(rows)),
        r is Err ==> (forall|rows: Seq<(Seq<bool>, Seq<bool>)>|
            s@ != #[trigger] json_of(encoded_rows(rows))),
{
    let entries = match entries_from_json(s) {
        Ok(e) => e,
        Err(e) => {
            return Err(e);
        },
    };
    let ghost ev = entries_view(entries@);
    let mut t = TruthTable::new();
    let mut i: usize = 0;
    while i < entries.len()
        invariant
            i <= entries@.len(),
            ev == entries_view(entries@),
            t.wf(),
            t@ == map_of_rows(decoded_rows(ev).take(i as int)),
        decreases entries@.len() - i,
    {
        let key = string_to_vec_bool(entries[i].0.as_str());
        let val = entries[i].1.clone();
        assert(val@ =~= entries@[i as int].1@);
        t.add(key, val);
        proof {
            assert(decoded_rows(ev).take(i + 1).drop_last() =~= decoded_rows(ev).take(i as int));
            assert(decoded_rows(ev).take(i + 1).last() == decoded_rows(ev)[i as int]);
        }
        i = i + 1;
    }
    proof {
        assert(decoded_rows(ev).take(entries@.len() as int) =~= decoded_rows(ev));
        assert forall|rows: Seq<(Seq<bool>, Seq<bool>)>|
            s@ == #[trigger] json_of(encoded_rows(rows)) implies t.wf() && t@ == map_of_rows(
            rows,
        ) by {
            assert(ev == encoded_rows(rows));
            assert(decoded_rows(encoded_rows(rows)) =~= rows) by {
                assert forall|j: int|
                    0 <= j < rows.len() implies decoded_rows(encoded_rows(rows))[j] == rows[j] by {
                    lemma_chars_round_trip(rows[j].0);
                }
            }
        }
    }
    Ok(t)
}

/// Saving a table and loading the text back yields the same mapping, for any
/// table: rendering succeeds, parsing the rendered text succeeds, and the
/// reloaded table denotes exactly the mapping that was saved.
pub fn table_json_round_trip(table: &TruthTable) -> (r: Result<TruthTable, TableFormatError>)
    requires
        table.wf(),
    ensures
        r matches Ok(t2) && t2.wf() && t2@ == table@,
{
    let s = match truth_table_to_json(table) {
        Ok(s) => s,
        Err(e) => {
            proof {
                assert(false);
            }
            return Err(e);
        },
    };
    let rebuilt = truth_table_from_json(s.as_str());
    match rebuilt {
        Ok(t2) => {
            proof {
                assert(s@ == json_of(encoded_rows(rows_view(table.rows@))));
            }
            Ok(t2)
        },
        Err(e) => {
            proof {
                assert(s@ == json_of(encoded_rows(rows_view(table.rows@))));
                assert(false);
            }
            Err(e)
        },
    }
}

} // verus!
