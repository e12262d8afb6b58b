use vstd::prelude::*;
use vstd::string::StringExecFns;
use crate::engine::{LinkageRecord, RecV};

verus! {

/// The ten decimal digit characters.
pub open spec fn digit_char(d: int) -> char {
    if d == 0 {
        '0'
    } else if d == 1 {
        '1'
    } else if d == 2 {
        '2'
    } else if d == 3 {
        '3'
    } else if d == 4 {
        '4'
    } else if d == 5 {
        '5'
    } else if d == 6 {
        '6'
    } else if d == 7 {
        '7'
    } else if d == 8 {
        '8'
    } else {
        '9'
    }
}

/// The canonical decimal rendering of a non-negative integer: most
/// significant digit first, no leading zeroes.
pub open spec fn dec_str(x: int) -> Seq<char>
    decreases x,
{
    if x < 10 {
        seq![digit_char(x)]
    } else {
        dec_str(x / 10).push(digit_char(x % 10))
    }
}

/// The digit character of `d`.
fn digit(d: usize) -> (c: &'static str)
    requires
        d < 10,
    ensures
        c@ == seq![digit_char(d as int)],
{
    proof {
        reveal_strlit("0");
        reveal_strlit("1");
        reveal_strlit("2");
        reveal_strlit("3");
        reveal_strlit("4");
        reveal_strlit("5");
        reveal_strlit("6");
        reveal_strlit("7");
        reveal_strlit("8");
        reveal_strlit("9");
    }
    if d == 0 {
        "0"
    } else if d == 1 {
        "1"
    } else if d == 2 {
        "2"
    } else if d == 3 {
        "3"
    } else if d == 4 {
        "4"
    } else if d == 5 {
        "5"
    } else if d == 6 {
        "6"
    } else if d == 7 {
        "7"
    } else if d == 8 {
        "8"
    } else {
        "9"
    }
}

/// Append the decimal rendering of `x` to `out`.
fn push_decimal(out: &mut String, x: usize)
    ensures
        final(out)@ == old(out)@ + dec_str(x as int),
    decreases x,
{
    if x < 10 {
        out.append(digit(x));
    } else {
        push_decimal(out, x / 10);
        out.append(digit(x % 10));
        assert(old(out)@ + dec_str((x / 10) as int) + seq![digit_char((x % 10) as int)]
            =~= old(out)@ + dec_str(x as int));
    }
}

/// One rendered line of the linkage file: the two identifiers, the distance
/// text `ds`, and the size, space-separated and newline-terminated.
pub open spec fn line_chars(r: RecV, ds: Seq<char>) -> Seq<char> {
    dec_str(r.id1) + seq![' '] + dec_str(r.id2) + seq![' '] + ds + seq![' '] + dec_str(r.size)
        + seq!['\n']
}

/// The first `k` rendered lines, in emission order.
pub open spec fn render_upto(recs: Seq<LinkageRecord>, ds: Seq<String>, k: int) -> Seq<char>
    decreases k,
{
    if k <= 0 {
        Seq::empty()
    } else {
        render_upto(recs, ds, k - 1) + line_chars(recs[k - 1]@, ds[k - 1]@)
    }
}

/// The whole linkage file: one line per record, in emission order, with no
/// reordering, filtering or deduplication.
pub open spec fn render(recs: Seq<LinkageRecord>, ds: Seq<String>) -> Seq<char> {
    render_upto(recs, ds, recs.len() as int)
}

/// Render the merge log in the linkage-matrix text format expected by the
/// external dendrogram renderer: per record the line
/// `<id1> <id2> <distance> <size>\n`, earliest merge first.
///
/// The distance field is textual because the engine carries distances as
/// opaque order keys: the caller decodes each record's key back to its
/// measured value and formats it (six digits after the decimal point),
/// giving `dist_text[k]` for record `k`.
pub fn serialize_linkage(records: &Vec<LinkageRecord>, dist_text: &Vec<String>) -> (out: String)
    requires
        dist_text@.len() == records@.len(),
    ensures
        out@ == render(records@, dist_text@),
{
    proof {
        reveal_strlit(" ");
        reveal_strlit("\n");
    }
    let mut out = String::new();
    let mut k: usize = 0;
    while k < records.len()
        invariant
            dist_text@.len() == records@.len(),
            k <= records@.len(),
            out@ == render_upto(records@, dist_text@, k as int),
            " "@ == seq![' '],
            "\n"@ == seq!['\n'],
        decreases records@.len() - k,
    {
        let r = &records[k];
        push_decimal(&mut out, r.id1);
        out.append(" ");
        push_decimal(&mut out, r.id2);
        out.append(" ");
        out.append(dist_text[k].as_str());
        out.append(" ");
        push_decimal(&mut out, r.size);
        out.append("\n");
        proof {
            assert(out@ =~= render_upto(records@, dist_text@, k as int)
                + line_chars(records@[k as int]@, dist_text@[k as int]@));
        }
        k += 1;
    }
    out
}

} // verus!
