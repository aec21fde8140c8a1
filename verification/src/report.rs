//! The report of a cycle: one line that holds every field of the
//! measurement vector, in the order of the vector.

use vstd::prelude::*;
use vstd::string::*;

verus! {

/// What stands between two fields of a report line.
pub const FIELD_SEPARATOR: &'static str = ", ";

/// The first `n` of `fields`, in order, with the separator between each two.
pub open spec fn joined(fields: Seq<Seq<char>>, n: nat) -> Seq<char>
    decreases n,
{
    if n == 0 {
        Seq::empty()
    } else if n == 1 {
        fields[0]
    } else {
        joined(fields, (n - 1) as nat) + FIELD_SEPARATOR@ + fields[n - 1]
    }
}

/// The texts of the rendered fields.
pub open spec fn texts(fields: Seq<String>) -> Seq<Seq<char>> {
    fields.map_values(|f: String| f@)
}

/// Puts the rendered fields of the measurement vector into one line: field
/// after field in the order given, separated by `FIELD_SEPARATOR`.
pub fn report_line(fields: &Vec<String>) -> (line: String)
    ensures
        line@ == joined(texts(fields@), fields@.len()),
{
    let mut line = String::new();
    let mut i: usize = 0;
    while i < fields.len()
        invariant
            i <= fields.len(),
            line@ == joined(texts(fields@), i as nat),
        decreases fields.len() - i,
    {
        if i > 0 {
            line.append(FIELD_SEPARATOR);
        }
        line.append(fields[i].as_str());
        assert(texts(fields@)[i as int] == fields@[i as int]@);
        assert(line@ =~= joined(texts(fields@), (i + 1) as nat));
        i += 1;
    }
    line
}

} // verus!
