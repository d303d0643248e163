//! Shaping the validation result into the printed report: a table of
//! (note id, field name, failure message) rows and a closing summary
//! line, with columns sized to the widest entry actually present.
use vstd::prelude::*;

use crate::field_validation::RuleView;
use crate::field_validation::ValidationResult;
use crate::field_validation::rule_message;
use crate::text::dec_nat;
use crate::text::pad_left;
use crate::text::pad_left_str;
use crate::text::pad_right;
use crate::text::pad_right_str;
use crate::text::repeat_char;
use crate::text::repeat_of;
use crate::text::u64_dec;

verus! {

/// The larger of two widths.
pub open spec fn max2(a: int, b: int) -> int {
    if a >= b {
        a
    } else {
        b
    }
}

/// The longest field name among one note's recorded failures.
pub open spec fn row_field_max(rows: Seq<(Seq<char>, RuleView)>) -> int
    decreases rows.len(),
{
    if rows.len() == 0 {
        0
    } else {
        max2(rows[0].0.len() as int, row_field_max(rows.drop_first()))
    }
}

/// The longest failure message among one note's recorded failures.
pub open spec fn row_message_max(rows: Seq<(Seq<char>, RuleView)>) -> int
    decreases rows.len(),
{
    if rows.len() == 0 {
        0
    } else {
        max2(rule_message(rows[0].1).len() as int, row_message_max(rows.drop_first()))
    }
}

/// The longest field name over all recorded failures.
pub open spec fn field_max(errors: Seq<(u64, Seq<(Seq<char>, RuleView)>)>) -> int
    decreases errors.len(),
{
    if errors.len() == 0 {
        0
    } else {
        max2(row_field_max(errors[0].1), field_max(errors.drop_first()))
    }
}

/// The longest failure message over all recorded failures.
pub open spec fn message_max(errors: Seq<(u64, Seq<(Seq<char>, RuleView)>)>) -> int
    decreases errors.len(),
{
    if errors.len() == 0 {
        0
    } else {
        max2(row_message_max(errors[0].1), message_max(errors.drop_first()))
    }
}

/// A horizontal border of the table, for the given column widths.
pub open spec fn border_line(fw: int, mw: int) -> Seq<char> {
    "|-"@ + repeat_char('-', 20) + "-|-"@ + repeat_char('-', fw) + "-|-"@ + repeat_char('-', mw)
        + "-|"@
}

/// The table's column-heading line.
pub open spec fn header_line(fw: int, mw: int) -> Seq<char> {
    "| "@ + pad_right("Note Id"@, 20) + " | "@ + pad_right("Field Name"@, fw) + " | "@ + pad_right(
        "Error Message"@,
        mw,
    ) + " |"@
}

/// One table row: the note id right-aligned, then the field name and the
/// failing rule's message, each padded to its column.
pub open spec fn row_line(id: u64, field: Seq<char>, rule: RuleView, fw: int, mw: int) -> Seq<
    char,
> {
    "| "@ + pad_left(dec_nat(id as int), 20) + " | "@ + pad_right(field, fw) + " | "@ + pad_right(
        rule_message(rule),
        mw,
    ) + " |"@
}

/// The rows of one failed note, one per failed field, in recorded order.
pub open spec fn note_row_lines(
    id: u64,
    rows: Seq<(Seq<char>, RuleView)>,
    fw: int,
    mw: int,
) -> Seq<Seq<char>> {
    rows.map_values(|r: (Seq<char>, RuleView)| row_line(id, r.0, r.1, fw, mw))
}

/// The rows of all failed notes, in recorded order.
pub open spec fn all_row_lines(
    errors: Seq<(u64, Seq<(Seq<char>, RuleView)>)>,
    fw: int,
    mw: int,
) -> Seq<Seq<char>>
    decreases errors.len(),
{
    if errors.len() == 0 {
        Seq::empty()
    } else {
        note_row_lines(errors[0].0, errors[0].1, fw, mw) + all_row_lines(
            errors.drop_first(),
            fw,
            mw,
        )
    }
}

/// The closing summary line.
pub open spec fn summary_line(total: int, failed: int) -> Seq<char> {
    dec_nat(total) + " notes have been validated, "@ + dec_nat(failed) + " notes failed"@
}

/// The whole report: bordered header, one row per recorded failure, a
/// closing border, a blank line, and the summary.
pub open spec fn spec_report_lines(result: ValidationResult) -> Seq<Seq<char>> {
    let errors = result.validation_errors.deep_view();
    let fw = max2(field_max(errors), "Field Name"@.len() as int);
    let mw = max2(message_max(errors), "Error Message"@.len() as int);
    seq![border_line(fw, mw), header_line(fw, mw), border_line(fw, mw)] + all_row_lines(
        errors,
        fw,
        mw,
    ) + seq![
        border_line(fw, mw),
        Seq::<char>::empty(),
        summary_line(result.total_note_count as int, result.failed_note_count as int),
    ]
}

proof fn lemma_row_maxes_nonneg(rows: Seq<(Seq<char>, RuleView)>)
    ensures
        row_field_max(rows) >= 0,
        row_message_max(rows) >= 0,
    decreases rows.len(),
{
    if rows.len() > 0 {
        lemma_row_maxes_nonneg(rows.drop_first());
    }
}

proof fn lemma_maxes_nonneg(errors: Seq<(u64, Seq<(Seq<char>, RuleView)>)>)
    ensures
        field_max(errors) >= 0,
        message_max(errors) >= 0,
    decreases errors.len(),
{
    if errors.len() > 0 {
        lemma_row_maxes_nonneg(errors[0].1);
        lemma_maxes_nonneg(errors.drop_first());
    }
}

/// The two column widths of the report for the given result: the longest
/// field name and the longest message, counted in characters, but never
/// narrower than the column headings.
fn column_widths(result: &ValidationResult) -> (r: (usize, usize))
    ensures
        r.0 == max2(
            field_max(result.validation_errors.deep_view()),
            "Field Name"@.len() as int,
        ),
        r.1 == max2(
            message_max(result.validation_errors.deep_view()),
            "Error Message"@.len() as int,
        ),
{
    let ghost errors = result.validation_errors.deep_view();
    let mut fw: usize = 0;
    let mut mw: usize = 0;
    let n = result.validation_errors.len();
    let mut i: usize = 0;
    proof {
        assert(errors.skip(0) =~= errors);
        lemma_maxes_nonneg(errors);
    }
    while i < n
        invariant
            0 <= i <= n,
            n == result.validation_errors.len(),
            errors == result.validation_errors.deep_view(),
            errors.len() == n,
            fw >= 0,
            mw >= 0,
            field_max(errors) == max2(fw as int, field_max(errors.skip(i as int))),
            message_max(errors) == max2(mw as int, message_max(errors.skip(i as int))),
        decreases n - i,
    {
        proof {
            assert(errors.skip(i as int)[0] == errors[i as int]);
            assert(errors.skip(i as int).drop_first() =~= errors.skip(i + 1));
            lemma_row_maxes_nonneg(errors[i as int].1);
            lemma_maxes_nonneg(errors.skip(i + 1));
        }
        let ghost rows = errors[i as int].1;
        let entry = &result.validation_errors[i].1;
        let m = entry.len();
        let mut j: usize = 0;
        proof {
            assert(rows.skip(0) =~= rows);
            assert(rows == result.validation_errors@[i as int].1.deep_view());
        }
        while j < m
            invariant
                0 <= j <= m,
                0 <= i < n,
                n == result.validation_errors.len(),
                errors == result.validation_errors.deep_view(),
                rows == errors[i as int].1,
                entry == &result.validation_errors[i as int].1,
                m == entry.len(),
                rows.len() == m,
                fw >= 0,
                mw >= 0,
                field_max(errors) == max2(fw as int, max2(row_field_max(rows.skip(j as int)), field_max(errors.skip(i + 1)))),
                message_max(errors) == max2(mw as int, max2(row_message_max(rows.skip(j as int)), message_max(errors.skip(i + 1)))),
            decreases m - j,
        {
            proof {
                assert(rows.skip(j as int)[0] == rows[j as int]);
                assert(rows.skip(j as int).drop_first() =~= rows.skip(j + 1));
                assert(rows[j as int].0 == entry@[j as int].0@);
                assert(rows[j as int].1 == entry@[j as int].1@);
            }
            let flen = entry[j].0.as_str().unicode_len();
            if flen > fw {
                fw = flen;
            }
            let msg = entry[j].1.get_message();
            let mlen = msg.as_str().unicode_len();
            if mlen > mw {
                mw = mlen;
            }
            j = j + 1;
        }
        proof {
            assert(rows.skip(m as int) =~= Seq::<(Seq<char>, RuleView)>::empty());
        }
        i = i + 1;
    }
    proof {
        assert(errors.skip(n as int) =~= Seq::<(u64, Seq<(Seq<char>, RuleView)>)>::empty());
    }
    let header_f = "Field Name".unicode_len();
    if fw < header_f {
        fw = header_f;
    }
    let header_m = "Error Message".unicode_len();
    if mw < header_m {
        mw = header_m;
    }
    (fw, mw)
}

/// One horizontal border for the given column widths.
fn make_border(fw: usize, mw: usize) -> (r: String)
    ensures
        r@ == border_line(fw as int, mw as int),
{
    proof {
        reveal_strlit("-");
    }
    let mut s = "|-".to_owned();
    let d20 = repeat_of("-", 20);
    s.append(d20.as_str());
    s.append("-|-");
    let df = repeat_of("-", fw);
    s.append(df.as_str());
    s.append("-|-");
    let dm = repeat_of("-", mw);
    s.append(dm.as_str());
    s.append("-|");
    s
}

/// Shapes the validation result into the printed report's lines, in
/// order: border, heading, border, one row per recorded field failure,
/// border, a blank line, and the summary.
pub fn format_validation_result(result: &ValidationResult) -> (r: Vec<String>)
    ensures
        r.deep_view() == spec_report_lines(*result),
{
    let ghost errors = result.validation_errors.deep_view();
    let widths = column_widths(result);
    let fw = widths.0;
    let mw = widths.1;
    let mut lines: Vec<String> = Vec::new();
    let border = make_border(fw, mw);

    let mut header = "| ".to_owned();
    let h1 = pad_right_str("Note Id", 20);
    header.append(h1.as_str());
    header.append(" | ");
    let h2 = pad_right_str("Field Name", fw);
    header.append(h2.as_str());
    header.append(" | ");
    let h3 = pad_right_str("Error Message", mw);
    header.append(h3.as_str());
    header.append(" |");

    lines.push(border.clone());
    lines.push(header);
    lines.push(border.clone());
    proof {
        assert(lines.deep_view() =~= seq![
            border_line(fw as int, mw as int),
            header_line(fw as int, mw as int),
            border_line(fw as int, mw as int),
        ]);
    }

    let ghost head = lines.deep_view();
    let n = result.validation_errors.len();
    let mut i: usize = 0;
    proof {
        assert(errors.skip(0) =~= errors);
        assert(head + all_row_lines(errors, fw as int, mw as int) =~= head + all_row_lines(
            errors.skip(0),
            fw as int,
            mw as int,
        ));
    }
    while i < n
        invariant
            0 <= i <= n,
            n == result.validation_errors.len(),
            errors == result.validation_errors.deep_view(),
            errors.len() == n,
            head == seq![
                border_line(fw as int, mw as int),
                header_line(fw as int, mw as int),
                border_line(fw as int, mw as int),
            ],
            head + all_row_lines(errors, fw as int, mw as int) == lines.deep_view()
                + all_row_lines(errors.skip(i as int), fw as int, mw as int),
        decreases n - i,
    {
        proof {
            assert(errors.skip(i as int)[0] == errors[i as int]);
            assert(errors.skip(i as int).drop_first() =~= errors.skip(i + 1));
        }
        let ghost rows = errors[i as int].1;
        let note_id = result.validation_errors[i].0;
        let entry = &result.validation_errors[i].1;
        let m = entry.len();
        let mut j: usize = 0;
        let ghost lines_before = lines.deep_view();
        proof {
            assert(rows == result.validation_errors@[i as int].1.deep_view());
            assert(note_row_lines(note_id, rows, fw as int, mw as int).take(0)
                =~= Seq::<Seq<char>>::empty());
            assert(lines_before + note_row_lines(note_id, rows, fw as int, mw as int).take(0)
                =~= lines_before);
        }
        while j < m
            invariant
                0 <= j <= m,
                0 <= i < n,
                n == result.validation_errors.len(),
                errors == result.validation_errors.deep_view(),
                rows == errors[i as int].1,
                entry == &result.validation_errors[i as int].1,
                note_id == errors[i as int].0,
                m == entry.len(),
                rows.len() == m,
                lines.deep_view() == lines_before + note_row_lines(
                    note_id,
                    rows,
                    fw as int,
                    mw as int,
                ).take(j as int),
            decreases m - j,
        {
            proof {
                assert(rows[j as int].0 == entry@[j as int].0@);
                assert(rows[j as int].1 == entry@[j as int].1@);
            }
            let mut row = "| ".to_owned();
            let digits = u64_dec(note_id);
            let c1 = pad_left_str(digits.as_str(), 20);
            row.append(c1.as_str());
            row.append(" | ");
            let c2 = pad_right_str(entry[j].0.as_str(), fw);
            row.append(c2.as_str());
            row.append(" | ");
            let msg = entry[j].1.get_message();
            let c3 = pad_right_str(msg.as_str(), mw);
            row.append(c3.as_str());
            row.append(" |");
            let ghost old_dv = lines.deep_view();
            lines.push(row);
            proof {
                let nrl = note_row_lines(note_id, rows, fw as int, mw as int);
                assert(nrl[j as int] == row_line(
                    note_id,
                    rows[j as int].0,
                    rows[j as int].1,
                    fw as int,
                    mw as int,
                ));
                assert(lines.deep_view() =~= old_dv.push(nrl[j as int]));
                assert(nrl.take(j as int).push(nrl[j as int]) =~= nrl.take(j + 1));
                assert(lines.deep_view() =~= lines_before + nrl.take(j + 1));
            }
            j = j + 1;
        }
        proof {
            let nrl = note_row_lines(note_id, rows, fw as int, mw as int);
            assert(nrl.take(m as int) =~= nrl);
            assert(lines_before + (nrl + all_row_lines(errors.skip(i + 1), fw as int, mw as int))
                =~= (lines_before + nrl) + all_row_lines(errors.skip(i + 1), fw as int, mw as int));
        }
        i = i + 1;
    }
    proof {
        assert(errors.skip(n as int) =~= Seq::<(u64, Seq<(Seq<char>, RuleView)>)>::empty());
        assert(lines.deep_view() + Seq::<Seq<char>>::empty() =~= lines.deep_view());
        assert(lines.deep_view() =~= head + all_row_lines(errors, fw as int, mw as int));
    }

    let ghost body = lines.deep_view();
    lines.push(border);
    lines.push(String::new());
    let mut summary = u64_dec(result.total_note_count as u64);
    summary.append(" notes have been validated, ");
    let failed_digits = u64_dec(result.failed_note_count as u64);
    summary.append(failed_digits.as_str());
    summary.append(" notes failed");
    lines.push(summary);
    proof {
        assert(lines.deep_view() =~= body + seq![
            border_line(fw as int, mw as int),
            Seq::<char>::empty(),
            summary_line(result.total_note_count as int, result.failed_note_count as int),
        ]);
        assert(lines.deep_view() =~= spec_report_lines(*result));
    }
    lines
}

} // verus!
