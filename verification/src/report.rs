//! The text in which a resolved environment is shown.

use vstd::prelude::*;
use vstd::string::StringExecFns;

verus! {

/// A line for a requirement that was asked for: `- `, the requirement and
/// the end of the line.
pub open spec fn requirement_line(requirement: Seq<char>) -> Seq<char> {
    seq!['-', ' '] + requirement + seq!['\n']
}

/// The lines of the requirements that were asked for, in order.
pub open spec fn requirement_lines(requirements: Seq<Seq<char>>) -> Seq<char>
    decreases requirements.len(),
{
    if requirements.len() == 0 {
        Seq::empty()
    } else {
        requirement_lines(requirements.drop_last()) + requirement_line(requirements.last())
    }
}

/// A row of the table: two columns with a tab between them.
pub open spec fn table_row(name: Seq<char>, version: Seq<char>) -> Seq<char> {
    name + seq!['\t'] + version + seq!['\n']
}

/// The rows of the packages that were chosen, in order.
pub open spec fn table_rows(rows: Seq<(String, String)>) -> Seq<char>
    decreases rows.len(),
{
    if rows.len() == 0 {
        Seq::empty()
    } else {
        table_rows(rows.drop_last()) + table_row(rows.last().0@, rows.last().1@)
    }
}

/// The requirements that were asked for, each on a line of its own after
/// `- `.
pub fn list_requirements(requirements: &Vec<String>) -> (r: String)
    ensures
        r@ == requirement_lines(crate::text::texts(requirements@)),
{
    let ghost all = crate::text::texts(requirements@);
    let mut out = String::new();
    let mut i: usize = 0;
    proof {
        reveal_strlit("- ");
        reveal_strlit("\n");
    }
    assert(all.take(0) =~= Seq::<Seq<char>>::empty());
    while i < requirements.len()
        invariant
            i <= requirements.len(),
            all == crate::text::texts(requirements@),
            "- "@ == seq!['-', ' '],
            "\n"@ == seq!['\n'],
            out@ == requirement_lines(all.take(i as int)),
        decreases requirements.len() - i,
    {
        proof {
            assert(all.take(i + 1).drop_last() =~= all.take(i as int));
            assert(all.take(i + 1).last() == requirements@[i as int]@);
        }
        let ghost before = out@;
        out.append("- ");
        out.append(requirements[i].as_str());
        out.append("\n");
        assert(out@ =~= before + requirement_line(requirements@[i as int]@));
        i += 1;
    }
    proof {
        assert(all.take(requirements.len() as int) =~= all);
    }
    out
}

/// The table of the packages that were chosen: under a row of the two
/// headers, a row for each package with its name and its version.
pub fn table(name_header: &str, version_header: &str, rows: &Vec<(String, String)>) -> (r: String)
    ensures
        r@ == table_row(name_header@, version_header@) + table_rows(rows@),
{
    let mut out = String::new();
    proof {
        reveal_strlit("\t");
        reveal_strlit("\n");
    }
    out.append(name_header);
    out.append("\t");
    out.append(version_header);
    out.append("\n");
    let ghost head = table_row(name_header@, version_header@);
    assert(out@ =~= head);
    assert(rows@.take(0) =~= Seq::<(String, String)>::empty());
    assert(out@ =~= head + table_rows(rows@.take(0)));
    let mut i: usize = 0;
    while i < rows.len()
        invariant
            i <= rows.len(),
            "\t"@ == seq!['\t'],
            "\n"@ == seq!['\n'],
            out@ == head + table_rows(rows@.take(i as int)),
        decreases rows.len() - i,
    {
        proof {
            assert(rows@.take(i + 1).drop_last() =~= rows@.take(i as int));
            assert(rows@.take(i + 1).last() == rows@[i as int]);
        }
        let ghost before = out@;
        out.append(rows[i].0.as_str());
        out.append("\t");
        out.append(rows[i].1.as_str());
        out.append("\n");
        assert(out@ =~= before + table_row(rows@[i as int].0@, rows@[i as int].1@));
        assert(out@ =~= head + table_rows(rows@.take(i + 1)));
        i += 1;
    }
    proof {
        assert(rows@.take(rows.len() as int) =~= rows@);
    }
    out
}

} // verus!
