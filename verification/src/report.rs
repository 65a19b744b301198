//! The summary: one line per activity, then the total.
//!
//! The label `-` marks off time. It has no line of its own and does not count
//! towards the total; what it gathered is noted beside the total.

use crate::decimal::{hours_text, push_hours};
use crate::durations::{total_of, Durations, EntrySeq};
use crate::error::{TimeError, TimeErrorView};
use vstd::prelude::*;
use vstd::string::*;

verus! {

/// The label that marks off time.
pub open spec fn off_time_label() -> Seq<char> {
    seq!['-']
}

/// A run of spaces.
pub open spec fn spaces(count: nat) -> Seq<char> {
    Seq::new(count, |i: int| ' ')
}

/// The width of the label column after the first `k` entries: the length of
/// the longest label among them, off time left out.
pub open spec fn column_width(entries: EntrySeq, k: nat) -> nat
    decreases k,
{
    if k == 0 {
        0
    } else {
        let before = column_width(entries, (k - 1) as nat);
        let label = entries[k - 1].0;
        if label != off_time_label() && label.len() > before {
            label.len()
        } else {
            before
        }
    }
}

/// The seconds of the first `k` entries together, off time left out.
pub open spec fn itemized_total(entries: EntrySeq, k: nat) -> nat
    decreases k,
{
    if k == 0 {
        0
    } else {
        itemized_total(entries, (k - 1) as nat) + if entries[k - 1].0 != off_time_label() {
            entries[k - 1].1
        } else {
            0
        }
    }
}

/// The line of one activity: its label filled up with spaces to the column
/// width, two spaces, its hours, and the word `hours`.
pub open spec fn activity_line(label: Seq<char>, seconds: nat, width: nat) -> Seq<char> {
    label + spaces((width - label.len()) as nat) + "  "@ + hours_text(seconds) + " hours\n"@
}

/// The lines of the first `k` entries in order, off time left out.
pub open spec fn activity_lines(entries: EntrySeq, width: nat, k: nat) -> Seq<char>
    decreases k,
{
    if k == 0 {
        Seq::empty()
    } else {
        activity_lines(entries, width, (k - 1) as nat) + if entries[k - 1].0 != off_time_label() {
            activity_line(entries[k - 1].0, entries[k - 1].1, width)
        } else {
            Seq::empty()
        }
    }
}

/// What stands beside the total: the off time in brackets, or nothing where
/// there was none.
pub open spec fn off_time_note(seconds: nat) -> Seq<char> {
    if seconds > 0 {
        " ("@ + hours_text(seconds) + " hours off)"@
    } else {
        Seq::empty()
    }
}

/// The whole summary: the activity lines, an empty line, and the line of the
/// total.
pub open spec fn report_text(entries: EntrySeq) -> Seq<char> {
    activity_lines(entries, column_width(entries, entries.len()), entries.len()) + "\nTotal: "@
        + hours_text(itemized_total(entries, entries.len())) + " hours"@ + off_time_note(
        total_of(entries, off_time_label()),
    ) + "\n"@
}

/// How laying out ends: with the summary, or with `EmptyInput` where there is
/// no entry at all.
pub open spec fn report_outcome(entries: EntrySeq) -> Result<Seq<char>, TimeErrorView> {
    if entries.len() == 0 {
        Err(TimeErrorView::EmptyInput)
    } else {
        Ok(report_text(entries))
    }
}

/// A summary, or its error, as plain values.
pub open spec fn report_result_view(result: Result<String, TimeError>) -> Result<
    Seq<char>,
    TimeErrorView,
> {
    match result {
        Ok(text) => Ok(text@),
        Err(error) => Err(error@),
    }
}

/// The column is as wide as the longest label that has a line: no such label
/// is longer, and where the width is not zero some such label has that length.
pub proof fn lemma_column_width(entries: EntrySeq, k: nat)
    requires
        k <= entries.len(),
    ensures
        forall|i: int|
            0 <= i < k && entries[i].0 != off_time_label() ==> (#[trigger] entries[i]).0.len()
                <= column_width(entries, k),
        column_width(entries, k) > 0 ==> exists|i: int|
            0 <= i < k && entries[i].0 != off_time_label() && (#[trigger] entries[i]).0.len()
                == column_width(entries, k),
    decreases k,
{
    if k > 0 {
        lemma_column_width(entries, (k - 1) as nat);
        let before = column_width(entries, (k - 1) as nat);
        let label = entries[k - 1].0;
        if label != off_time_label() && label.len() > before {
            assert(entries[k - 1].0.len() == column_width(entries, k));
        } else if before > 0 {
            let i = choose|i: int|
                0 <= i < k - 1 && entries[i].0 != off_time_label() && (#[trigger] entries[i]).0.len()
                    == before;
            assert(entries[i].0.len() == column_width(entries, k));
        }
    }
}

/// Whether a label marks off time.
pub fn is_off_time(label: &str) -> (off: bool)
    ensures
        off == (label@ == off_time_label()),
{
    let off = label.unicode_len() == 1 && label.get_char(0) == '-';
    assert(off == (label@ =~= off_time_label()));
    off
}

/// Writes `count` spaces at the end of `text`.
fn push_spaces(text: &mut String, count: usize)
    ensures
        final(text)@ == old(text)@ + spaces(count as nat),
{
    proof {
        reveal_strlit(" ");
    }
    let mut written: usize = 0;
    assert(text@ =~= old(text)@ + spaces(0));
    while written < count
        invariant
            written <= count,
            text@ == old(text)@ + spaces(written as nat),
            " "@ == seq![' '],
        decreases count - written,
    {
        text.append(" ");
        written += 1;
        assert(text@ =~= old(text)@ + spaces(written as nat));
    }
}

/// The width of the label column of these entries.
fn widest_label(durations: &Durations) -> (width: usize)
    ensures
        width == column_width(durations.entries(), durations.entries().len()),
{
    let mut width: usize = 0;
    let mut k: usize = 0;
    while k < durations.len()
        invariant
            k <= durations.entries().len(),
            width == column_width(durations.entries(), k as nat),
        decreases durations.entries().len() - k,
    {
        let label = durations.label_at(k);
        let length = label.unicode_len();
        if !is_off_time(label) && length > width {
            width = length;
        }
        k += 1;
    }
    width
}

/// Lays the totals out as text: for each label but `-`, in order, a line
/// with the label, filled up to the longest label's length, two spaces and
/// its hours; an empty line; and the total of those lines, followed by the
/// off time in brackets where `-` gathered any. Fails with `EmptyInput` where
/// there is no entry.
pub fn format_durations(durations: &Durations) -> (result: Result<String, TimeError>)
    ensures
        report_result_view(result) == report_outcome(durations.entries()),
{
    let count = durations.len();
    if count == 0 {
        return Err(TimeError::EmptyInput);
    }
    proof {
        use_type_invariant(durations);
    }
    let ghost entries = durations.entries();
    let width = widest_label(durations);
    let mut text = String::new();
    let mut total: u128 = 0;
    let mut k: usize = 0;
    assert(text@ =~= activity_lines(entries, width as nat, 0));
    while k < count
        invariant
            entries == durations.entries(),
            durations.wf(),
            count == entries.len(),
            width == column_width(entries, entries.len()),
            k <= count,
            text@ == activity_lines(entries, width as nat, k as nat),
            total == itemized_total(entries, k as nat),
            total <= k * 0xffff_ffff,
        decreases count - k,
    {
        let label = durations.label_at(k);
        let seconds = durations.seconds_at(k);
        if !is_off_time(label) {
            proof {
                lemma_column_width(entries, entries.len());
            }
            let ghost before = text@;
            text.append(label);
            push_spaces(&mut text, width - label.unicode_len());
            text.append("  ");
            push_hours(&mut text, seconds as u128);
            text.append(" hours\n");
            assert(text@ =~= before + activity_line(label@, seconds as nat, width as nat));
            total += seconds as u128;
        }
        k += 1;
    }
    let off = match durations.get("-") {
        Some(seconds) => seconds,
        None => 0,
    };
    proof {
        reveal_strlit("-");
        assert("-"@ =~= off_time_label());
    }
    text.append("\nTotal: ");
    push_hours(&mut text, total);
    text.append(" hours");
    if off > 0 {
        text.append(" (");
        push_hours(&mut text, off as u128);
        text.append(" hours off)");
    }
    text.append("\n");
    assert(text@ =~= report_text(entries));
    Ok(text)
}

} // verus!
