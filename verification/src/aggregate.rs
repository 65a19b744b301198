//! The aggregator: from alternating timepoints and labels to totals per label.
//!
//! The tokens read `time, label, time, label, ..., time`. Each label stands
//! between the two timepoints of its span, and the length of the span is
//! credited to the label.

use crate::clock::{WallClock, SECONDS_PER_DAY};
use crate::durations::{
    credited, distinct_labels, has_label, lemma_total_at, total_of, Durations, EntrySeq,
};
use crate::error::{TimeError, TimeErrorView};
use crate::timepoint::{
    is_now, is_now_token, lemma_timepoint_in_day, lemma_written_ignores_clock, parse_outcome,
    parse_timepoint_at,
};
use vstd::prelude::*;

verus! {

/// The tokens of a calculation, each by its characters.
pub type Tokens = Seq<Seq<char>>;

pub open spec fn tokens_of(args: Seq<String>) -> Tokens {
    args.map_values(|arg: String| arg@)
}

/// At least three tokens, and an odd number of them.
pub open spec fn valid_count(count: nat) -> bool {
    count >= 3 && count % 2 == 1
}

/// The number of spans in a token sequence of valid length.
pub open spec fn span_count(tokens: Tokens) -> nat {
    tokens.len() / 2
}

/// The label of span `j`.
pub open spec fn span_label(tokens: Tokens, j: int) -> Seq<char> {
    tokens[2 * j + 1]
}

/// How span `j` ends: its start is read, then its end, and the end may not
/// precede the start.
pub open spec fn span_outcome(tokens: Tokens, now: nat, j: int) -> Result<nat, TimeErrorView> {
    match parse_outcome(tokens[2 * j], now) {
        Err(error) => Err(error),
        Ok(start) => match parse_outcome(tokens[2 * j + 2], now) {
            Err(error) => Err(error),
            Ok(end) => if end < start {
                Err(TimeErrorView::NegativeDuration { start, end })
            } else {
                Ok((end - start) as nat)
            },
        },
    }
}

/// The length of span `j` in seconds; zero where the span fails.
pub open spec fn span_seconds(tokens: Tokens, now: nat, j: int) -> nat {
    match span_outcome(tokens, now, j) {
        Ok(seconds) => seconds,
        Err(_) => 0,
    }
}

/// The first `k` spans all have a length.
pub open spec fn spans_ok(tokens: Tokens, now: nat, k: int) -> bool {
    forall|j: int| 0 <= j < k ==> (#[trigger] span_outcome(tokens, now, j)) is Ok
}

/// Span `j` is the first that fails.
pub open spec fn is_first_failure(tokens: Tokens, now: nat, j: int) -> bool {
    &&& 0 <= j < span_count(tokens)
    &&& span_outcome(tokens, now, j) is Err
    &&& spans_ok(tokens, now, j)
}

/// The sum of the lengths of those of the first `k` spans that carry the
/// label.
pub open spec fn label_total(tokens: Tokens, now: nat, label: Seq<char>, k: nat) -> nat
    decreases k,
{
    if k == 0 {
        0
    } else {
        label_total(tokens, now, label, (k - 1) as nat) + if span_label(tokens, k - 1) == label {
            span_seconds(tokens, now, k - 1)
        } else {
            0
        }
    }
}

/// The labels of the first `k` spans, each once, in the order in which they
/// first come.
pub open spec fn first_seen(tokens: Tokens, k: nat) -> Seq<Seq<char>>
    decreases k,
{
    if k == 0 {
        Seq::empty()
    } else {
        let before = first_seen(tokens, (k - 1) as nat);
        if before.contains(span_label(tokens, k - 1)) {
            before
        } else {
            before.push(span_label(tokens, k - 1))
        }
    }
}

/// The entries after the first `k` spans: every label seen so far with the
/// sum of its spans.
pub open spec fn entries_after(tokens: Tokens, now: nat, k: nat) -> EntrySeq {
    Seq::new(
        first_seen(tokens, k).len(),
        |i: int| (first_seen(tokens, k)[i], label_total(tokens, now, first_seen(tokens, k)[i], k)),
    )
}

/// What a calculation gives when the clock reads `now`: the count of tokens
/// is judged first, then the spans in order; the first span that fails
/// decides the error, and where none fails every label has its total.
pub open spec fn aggregate(tokens: Tokens, now: nat) -> Result<EntrySeq, TimeErrorView> {
    if !valid_count(tokens.len()) {
        Err(TimeErrorView::InvalidArgumentCount(tokens.len()))
    } else if spans_ok(tokens, now, span_count(tokens) as int) {
        Ok(entries_after(tokens, now, span_count(tokens)))
    } else {
        let j = choose|j: int| is_first_failure(tokens, now, j);
        match span_outcome(tokens, now, j) {
            Err(error) => Err(error),
            Ok(_) => arbitrary(),
        }
    }
}

/// Whether a token in the place of a timepoint is the word `now`.
pub open spec fn mentions_now(tokens: Tokens) -> bool {
    exists|i: int| 0 <= i < tokens.len() && i % 2 == 0 && is_now(#[trigger] tokens[i])
}

/// A calculation's result, or its error, as plain values.
pub open spec fn durations_result_view(result: Result<Durations, TimeError>) -> Result<
    EntrySeq,
    TimeErrorView,
> {
    match result {
        Ok(durations) => Ok(durations.entries()),
        Err(error) => Err(error@),
    }
}

/// The labels seen so far are distinct, and they are the labels of the spans
/// so far.
pub proof fn lemma_first_seen(tokens: Tokens, k: nat)
    ensures
        first_seen(tokens, k).no_duplicates(),
        forall|label: Seq<char>|
            first_seen(tokens, k).contains(label) <==> exists|j: int|
                0 <= j < k && #[trigger] span_label(tokens, j) == label,
    decreases k,
{
    if k > 0 {
        let before = first_seen(tokens, (k - 1) as nat);
        let last = span_label(tokens, k - 1);
        let seen = first_seen(tokens, k);
        lemma_first_seen(tokens, (k - 1) as nat);
        assert forall|label: Seq<char>| seen.contains(label) <==> exists|j: int|
            0 <= j < k && #[trigger] span_label(tokens, j) == label by {
            if seen.contains(label) {
                let i = choose|i: int| 0 <= i < seen.len() && seen[i] == label;
                if i < before.len() {
                    assert(before[i] == label);
                    assert(before.contains(label));
                } else {
                    assert(span_label(tokens, k - 1) == label);
                }
            }
            if exists|j: int| 0 <= j < k && #[trigger] span_label(tokens, j) == label {
                let j = choose|j: int| 0 <= j < k && #[trigger] span_label(tokens, j) == label;
                if j < k - 1 {
                    assert(before.contains(label));
                    let i = choose|i: int| 0 <= i < before.len() && before[i] == label;
                    assert(seen[i] == label);
                } else if !before.contains(last) {
                    assert(seen[before.len() as int] == label);
                }
            }
        }
    }
}

/// A label that no span so far carries has no seconds.
proof fn lemma_unseen_label(tokens: Tokens, now: nat, label: Seq<char>, k: nat)
    requires
        !first_seen(tokens, k).contains(label),
    ensures
        label_total(tokens, now, label, k) == 0,
    decreases k,
{
    if k > 0 {
        lemma_first_seen(tokens, k);
        lemma_first_seen(tokens, (k - 1) as nat);
        assert(span_label(tokens, k - 1) != label);
        lemma_unseen_label(tokens, now, label, (k - 1) as nat);
    }
}

/// The entries after `k` spans have distinct labels, and the seconds they
/// give for any label are the sum of that label's spans: spans under one
/// label add up, and no span counts under another label.
pub proof fn lemma_entries_after(tokens: Tokens, now: nat, k: nat)
    ensures
        distinct_labels(entries_after(tokens, now, k)),
        forall|label: Seq<char>|
            has_label(entries_after(tokens, now, k), label) == first_seen(tokens, k).contains(
                label,
            ),
        forall|label: Seq<char>| #[trigger]
            total_of(entries_after(tokens, now, k), label) == label_total(tokens, now, label, k),
{
    let entries = entries_after(tokens, now, k);
    let seen = first_seen(tokens, k);
    lemma_first_seen(tokens, k);
    assert forall|label: Seq<char>| has_label(entries, label) == seen.contains(label) by {
        if has_label(entries, label) {
            let i = choose|i: int| 0 <= i < entries.len() && #[trigger] entries[i].0 == label;
            assert(seen[i] == label);
        }
        if seen.contains(label) {
            let i = choose|i: int| 0 <= i < seen.len() && seen[i] == label;
            assert(entries[i].0 == label);
        }
    }
    assert forall|label: Seq<char>| #[trigger]
        total_of(entries, label) == label_total(tokens, now, label, k) by {
        if has_label(entries, label) {
            let i = choose|i: int| 0 <= i < entries.len() && #[trigger] entries[i].0 == label;
            lemma_total_at(entries, i);
        } else {
            lemma_unseen_label(tokens, now, label, k);
        }
    }
}

/// Crediting span `k` to the entries after `k` spans gives the entries after
/// `k + 1` spans.
proof fn lemma_entries_step(tokens: Tokens, now: nat, k: nat)
    ensures
        credited(
            entries_after(tokens, now, k),
            span_label(tokens, k as int),
            span_seconds(tokens, now, k as int),
        ) == entries_after(tokens, now, k + 1),
{
    let entries = entries_after(tokens, now, k);
    let label = span_label(tokens, k as int);
    let seconds = span_seconds(tokens, now, k as int);
    let seen = first_seen(tokens, k);
    let next = entries_after(tokens, now, k + 1);
    lemma_entries_after(tokens, now, k);
    lemma_first_seen(tokens, k);
    if has_label(entries, label) {
        let i = choose|i: int| 0 <= i < entries.len() && #[trigger] entries[i].0 == label;
        lemma_total_at(entries, i);
        assert(first_seen(tokens, k + 1) == seen);
        assert(credited(entries, label, seconds) =~= next);
    } else {
        assert(first_seen(tokens, k + 1) == seen.push(label));
        lemma_unseen_label(tokens, now, label, k);
        assert forall|i: int| 0 <= i < seen.len() implies seen[i] != label by {
            if seen[i] == label {
                assert(seen.contains(label));
            }
        }
        assert(credited(entries, label, seconds) =~= next);
    }
}

/// The time that the token in place `i` means; zero where it means none.
pub open spec fn time_at(tokens: Tokens, now: nat, i: int) -> nat {
    match parse_outcome(tokens[i], now) {
        Ok(seconds) => seconds,
        Err(_) => 0,
    }
}

/// While no span fails the timepoints never go back, so what any one label
/// has gathered is at most the time from the first timepoint to the latest.
pub proof fn lemma_total_within_elapsed(tokens: Tokens, now: nat, label: Seq<char>, k: nat)
    requires
        spans_ok(tokens, now, k as int),
    ensures
        time_at(tokens, now, 0) + label_total(tokens, now, label, k) <= time_at(
            tokens,
            now,
            2 * (k as int),
        ),
    decreases k,
{
    if k > 0 {
        lemma_total_within_elapsed(tokens, now, label, (k - 1) as nat);
        assert(span_outcome(tokens, now, k - 1) is Ok);
    }
}

/// At most one span is the first to fail.
proof fn lemma_first_failure_unique(tokens: Tokens, now: nat, j: int)
    requires
        is_first_failure(tokens, now, j),
    ensures
        !spans_ok(tokens, now, span_count(tokens) as int),
        (choose|i: int| is_first_failure(tokens, now, i)) == j,
{
    let i = choose|i: int| is_first_failure(tokens, now, i);
    if i < j {
        assert(span_outcome(tokens, now, i) is Ok);
    }
    if j < i {
        assert(span_outcome(tokens, now, j) is Ok);
    }
}

/// Where span `j` is the first to fail, the calculation fails as that span
/// does.
pub proof fn lemma_aggregate_fails_at(tokens: Tokens, now: nat, j: int)
    requires
        valid_count(tokens.len()),
        is_first_failure(tokens, now, j),
    ensures
        span_outcome(tokens, now, j) matches Err(error) && aggregate(tokens, now) == Err::<
            EntrySeq,
            TimeErrorView,
        >(error),
{
    lemma_first_failure_unique(tokens, now, j);
}

/// A calculation fails exactly when the count of tokens is wrong or some
/// span fails; so a pair of timepoints that goes back always fails it.
pub proof fn lemma_aggregate_ok(tokens: Tokens, now: nat)
    ensures
        aggregate(tokens, now) is Ok <==> valid_count(tokens.len()) && spans_ok(
            tokens,
            now,
            span_count(tokens) as int,
        ),
{
    if valid_count(tokens.len()) && !spans_ok(tokens, now, span_count(tokens) as int) {
        let j = lemma_some_first_failure(tokens, now, span_count(tokens));
        lemma_aggregate_fails_at(tokens, now, j);
    }
}

/// Every label's total in a calculation that succeeds is the sum of the spans
/// that carry the label: spans under one label add up, none replaces another.
pub proof fn lemma_totals_add_up(tokens: Tokens, now: nat, label: Seq<char>)
    requires
        aggregate(tokens, now) is Ok,
    ensures
        aggregate(tokens, now) == Ok::<EntrySeq, TimeErrorView>(
            entries_after(tokens, now, span_count(tokens)),
        ),
        total_of(entries_after(tokens, now, span_count(tokens)), label) == label_total(
            tokens,
            now,
            label,
            span_count(tokens),
        ),
        has_label(entries_after(tokens, now, span_count(tokens)), label) <==> exists|j: int|
            0 <= j < span_count(tokens) && #[trigger] span_label(tokens, j) == label,
{
    let n = span_count(tokens);
    let entries = entries_after(tokens, now, n);
    lemma_aggregate_ok(tokens, now);
    lemma_entries_after(tokens, now, n);
    lemma_first_seen(tokens, n);
    assert(total_of(entries, label) == label_total(tokens, now, label, n));
    assert(has_label(entries, label) == first_seen(tokens, n).contains(label));
}

/// A span whose end precedes its start fails the calculation; where no
/// earlier span fails, it does so with `NegativeDuration` and both ends.
pub proof fn lemma_decreasing_pair_fails(tokens: Tokens, now: nat, j: int, start: nat, end: nat)
    requires
        valid_count(tokens.len()),
        0 <= j < span_count(tokens),
        parse_outcome(tokens[2 * j], now) == Ok::<nat, TimeErrorView>(start),
        parse_outcome(tokens[2 * j + 2], now) == Ok::<nat, TimeErrorView>(end),
        end < start,
    ensures
        aggregate(tokens, now) is Err,
        spans_ok(tokens, now, j) ==> aggregate(tokens, now) == Err::<EntrySeq, TimeErrorView>(
            TimeErrorView::NegativeDuration { start, end },
        ),
{
    assert(span_outcome(tokens, now, j) is Err);
    lemma_aggregate_ok(tokens, now);
    if spans_ok(tokens, now, j) {
        lemma_aggregate_fails_at(tokens, now, j);
    }
}

/// Among the first `k` spans, if any fails then one is the first to fail.
proof fn lemma_some_first_failure(tokens: Tokens, now: nat, k: nat) -> (j: int)
    requires
        k <= span_count(tokens),
        !spans_ok(tokens, now, k as int),
    ensures
        j < k,
        is_first_failure(tokens, now, j),
    decreases k,
{
    if k == 0 {
        0
    } else if spans_ok(tokens, now, k - 1) {
        k - 1
    } else {
        lemma_some_first_failure(tokens, now, (k - 1) as nat)
    }
}

/// Without the word `now` among the timepoints the clock does not matter.
pub proof fn lemma_clock_irrelevant(tokens: Tokens, now: nat, other: nat)
    requires
        !mentions_now(tokens),
    ensures
        aggregate(tokens, now) == aggregate(tokens, other),
{
    if valid_count(tokens.len()) {
        let n = span_count(tokens);
        assert forall|j: int| 0 <= j < n implies #[trigger] span_outcome(tokens, now, j)
            == span_outcome(tokens, other, j) by {
            assert(!is_now(tokens[2 * j]));
            assert(!is_now(tokens[2 * j + 2]));
            lemma_written_ignores_clock(tokens[2 * j], now, other);
            lemma_written_ignores_clock(tokens[2 * j + 2], now, other);
        }
        if spans_ok(tokens, now, n as int) {
            assert(spans_ok(tokens, other, n as int)) by {
                assert forall|j: int| 0 <= j < n implies (#[trigger] span_outcome(
                    tokens,
                    other,
                    j,
                )) is Ok by {
                    assert(span_outcome(tokens, now, j) is Ok);
                }
            }
            assert forall|label: Seq<char>|
                label_total(tokens, now, label, n) == label_total(tokens, other, label, n) by {
                lemma_label_total_same(tokens, now, other, label, n);
            }
            assert(entries_after(tokens, now, n) =~= entries_after(tokens, other, n));
        } else {
            let j = lemma_some_first_failure(tokens, now, n);
            assert(is_first_failure(tokens, other, j)) by {
                assert forall|i: int| 0 <= i < j implies (#[trigger] span_outcome(
                    tokens,
                    other,
                    i,
                )) is Ok by {
                    assert(span_outcome(tokens, now, i) is Ok);
                }
            }
            lemma_aggregate_fails_at(tokens, now, j);
            lemma_aggregate_fails_at(tokens, other, j);
        }
    }
}

/// Spans that are the same at two clock readings give the same totals.
proof fn lemma_label_total_same(tokens: Tokens, now: nat, other: nat, label: Seq<char>, k: nat)
    requires
        forall|j: int|
            0 <= j < k ==> #[trigger] span_outcome(tokens, now, j) == span_outcome(
                tokens,
                other,
                j,
            ),
    ensures
        label_total(tokens, now, label, k) == label_total(tokens, other, label, k),
    decreases k,
{
    if k > 0 {
        lemma_label_total_same(tokens, now, other, label, (k - 1) as nat);
        assert(span_outcome(tokens, now, k - 1) == span_outcome(tokens, other, k - 1));
    }
}

/// One more span that has a length: the spans so far are still without
/// failure, the label's new total stays below a day, and crediting the span
/// gives the entries after it.
proof fn lemma_span_credited(tokens: Tokens, now: nat, k: int, start: nat, end: nat)
    requires
        0 <= k,
        now < SECONDS_PER_DAY,
        spans_ok(tokens, now, k),
        parse_outcome(tokens[2 * k], now) == Ok::<nat, TimeErrorView>(start),
        parse_outcome(tokens[2 * k + 2], now) == Ok::<nat, TimeErrorView>(end),
        start <= end,
    ensures
        spans_ok(tokens, now, k + 1),
        total_of(entries_after(tokens, now, k as nat), span_label(tokens, k)) + (end - start)
            < SECONDS_PER_DAY,
        credited(entries_after(tokens, now, k as nat), span_label(tokens, k), (end - start) as nat)
            == entries_after(tokens, now, (k + 1) as nat),
{
    let label = span_label(tokens, k);
    let before = label_total(tokens, now, label, k as nat);
    assert(span_outcome(tokens, now, k) == Ok::<nat, TimeErrorView>((end - start) as nat));
    assert(spans_ok(tokens, now, k + 1)) by {
        assert forall|j: int| 0 <= j < k + 1 implies (#[trigger] span_outcome(tokens, now, j))
            is Ok by {
            if j < k {
                assert(span_outcome(tokens, now, j) is Ok);
            }
        }
    }
    assert(total_of(entries_after(tokens, now, k as nat), label) == before) by {
        lemma_entries_after(tokens, now, k as nat);
    }
    assert(before + (end - start) <= end) by {
        lemma_total_within_elapsed(tokens, now, label, (k + 1) as nat);
        assert(time_at(tokens, now, 2 * (k + 1)) == end);
        assert(label_total(tokens, now, label, (k + 1) as nat) == before + (end - start));
    }
    assert(end < SECONDS_PER_DAY) by {
        lemma_timepoint_in_day(tokens[2 * k + 2], now);
    }
    lemma_entries_step(tokens, now, k as nat);
}

/// Credits every span of the tokens to its label, reading the word `now` as
/// the given clock reading.
///
/// Fails with `InvalidArgumentCount` unless there are at least three tokens
/// and an odd number of them. Otherwise the spans are taken in order; the
/// first whose start or end cannot be read fails the calculation with that
/// parse error, and the first whose end precedes its start fails it with
/// `NegativeDuration`. A span of no length is credited like any other.
pub fn calculate_durations_at(args: &[String], now: &WallClock) -> (result: Result<
    Durations,
    TimeError,
>)
    ensures
        durations_result_view(result) == aggregate(tokens_of(args@), now.seconds()),
        !valid_count(args@.len()) <==> result matches Err(TimeError::InvalidArgumentCount(_)),
        result matches Ok(durations) ==> durations.wf(),
{
    let count = args.len();
    if count < 3 || count % 2 == 0 {
        return Err(TimeError::InvalidArgumentCount(count));
    }
    let ghost tokens = tokens_of(args@);
    let ghost clock = now.seconds();
    proof {
        use_type_invariant(now);
        now.lemma_seconds_in_day();
    }
    let spans = count / 2;
    let mut durations = Durations::new();
    let mut start = match parse_timepoint_at(args[0].as_str(), now) {
        Ok(seconds) => seconds,
        Err(error) => {
            proof {
                lemma_aggregate_fails_at(tokens, clock, 0);
            }
            return Err(error);
        },
    };
    let mut k: usize = 0;
    while k < spans
        invariant
            count == args@.len(),
            count == 2 * spans + 1,
            tokens == tokens_of(args@),
            clock == now.seconds(),
            clock < SECONDS_PER_DAY,
            k <= spans,
            spans_ok(tokens, clock, k as int),
            parse_outcome(tokens[2 * k], clock) == Ok::<nat, TimeErrorView>(start as nat),
            durations.entries() == entries_after(tokens, clock, k as nat),
        decreases spans - k,
    {
        let end = match parse_timepoint_at(args[2 * k + 2].as_str(), now) {
            Ok(seconds) => seconds,
            Err(error) => {
                proof {
                    lemma_aggregate_fails_at(tokens, clock, k as int);
                }
                return Err(error);
            },
        };
        if end < start {
            proof {
                lemma_aggregate_fails_at(tokens, clock, k as int);
            }
            return Err(TimeError::NegativeDuration { start, end });
        }
        proof {
            lemma_span_credited(tokens, clock, k as int, start as nat, end as nat);
        }
        durations.record(args[2 * k + 1].as_str(), end - start);
        start = end;
        k += 1;
    }
    proof {
        use_type_invariant(&durations);
    }
    Ok(durations)
}

/// Whether some token in the place of a timepoint is the word `now`.
pub fn any_timepoint_is_now(args: &[String]) -> (yes: bool)
    ensures
        yes == mentions_now(tokens_of(args@)),
{
    let ghost tokens = tokens_of(args@);
    let mut i: usize = 0;
    while i < args.len()
        invariant
            tokens == tokens_of(args@),
            i % 2 == 0,
            forall|j: int| 0 <= j < i && j < tokens.len() && j % 2 == 0 ==> !is_now(tokens[j]),
        decreases args.len() - i,
    {
        if is_now_token(args[i].as_str()) {
            assert(is_now(tokens[i as int]));
            return true;
        }
        if args.len() - i < 2 {
            assert forall|j: int| 0 <= j < tokens.len() && j % 2 == 0 implies !is_now(
                tokens[j],
            ) by {
                assert(j <= i);
            }
            return false;
        }
        i += 2;
    }
    false
}

/// Credits every span of the tokens to its label. The local wall clock is
/// read once, and only where some timepoint is the word `now`. The result is
/// what `calculate_durations_at` gives for some time of day; where no
/// timepoint is the word `now`, that is the same at every time of day.
pub fn calculate_durations(args: &[String]) -> (result: Result<Durations, TimeError>)
    ensures
        exists|now: nat|
            now < SECONDS_PER_DAY && durations_result_view(result) == #[trigger] aggregate(
                tokens_of(args@),
                now,
            ),
        !mentions_now(tokens_of(args@)) ==> forall|now: nat|
            durations_result_view(result) == #[trigger] aggregate(tokens_of(args@), now),
        !valid_count(args@.len()) <==> result matches Err(TimeError::InvalidArgumentCount(_)),
        result matches Ok(durations) ==> durations.wf(),
{
    if any_timepoint_is_now(args) {
        let clock = WallClock::read_local();
        let result = calculate_durations_at(args, &clock);
        proof {
            clock.lemma_seconds_in_day();
            assert(durations_result_view(result) == aggregate(tokens_of(args@), clock.seconds()));
        }
        result
    } else {
        let result = calculate_durations_at(args, &WallClock::midnight());
        proof {
            assert(durations_result_view(result) == aggregate(tokens_of(args@), 0));
            assert forall|now: nat|
                durations_result_view(result) == #[trigger] aggregate(tokens_of(args@), now) by {
                lemma_clock_irrelevant(tokens_of(args@), 0, now);
            }
        }
        result
    }
}

} // verus!
