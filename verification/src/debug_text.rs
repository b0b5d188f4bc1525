//! The textual debug rendering of a histogram: a compact one-line form and
//! an indented multi-line form.
use vstd::prelude::*;
use crate::histogram::{Histogram, HistogramView};

verus! {

/// The character of decimal digit `d`.
pub open spec fn digit_char(d: nat) -> char {
    (48 + d) as char
}

/// The decimal digits of `n`, most significant first, without leading
/// zeros.
pub open spec fn decimal(n: nat) -> Seq<char>
    decreases n,
{
    if n < 10 {
        seq![digit_char(n)]
    } else {
        decimal(n / 10).push(digit_char(n % 10))
    }
}

/// The text of a bool.
pub open spec fn bool_text(b: bool) -> Seq<char> {
    if b {
        "true"@
    } else {
        "false"@
    }
}

/// The one-line text of an optional number: `Some(n)` or `None`.
pub open spec fn option_text(value: Option<u64>) -> Seq<char> {
    match value {
        Some(n) => "Some("@ + decimal(n as nat) + ")"@,
        None => "None"@,
    }
}

/// The multi-line text of an optional number, for a field at the first
/// level of indentation.
pub open spec fn option_text_pretty(value: Option<u64>) -> Seq<char> {
    match value {
        Some(n) => "Some(\n        "@ + decimal(n as nat) + ",\n    )"@,
        None => "None"@,
    }
}

/// The one-line entry of a non-empty bucket: its index and its count.
pub open spec fn entry_text(i: nat, count: u64) -> Seq<char> {
    decimal(i) + ": "@ + decimal(count as nat)
}

/// The multi-line entry of a non-empty bucket: the bucket's lower bound as
/// a power of two, and its count.
pub open spec fn entry_text_pretty(i: nat, count: u64) -> Seq<char> {
    "        \"2^"@ + decimal(i) + "\": "@ + decimal(count as nat) + ",\n"@
}

/// The one-line entries of the non-empty buckets below `n`, separated by
/// commas.
pub open spec fn entries_text(buckets: Seq<u64>, n: int) -> Seq<char>
    decreases n,
{
    if n <= 0 {
        Seq::empty()
    } else {
        let before = entries_text(buckets, n - 1);
        if buckets[n - 1] == 0 {
            before
        } else if before.len() == 0 {
            entry_text((n - 1) as nat, buckets[n - 1])
        } else {
            before + ", "@ + entry_text((n - 1) as nat, buckets[n - 1])
        }
    }
}

/// The multi-line entries of the non-empty buckets below `n`.
pub open spec fn entries_text_pretty(buckets: Seq<u64>, n: int) -> Seq<char>
    decreases n,
{
    if n <= 0 {
        Seq::empty()
    } else {
        let before = entries_text_pretty(buckets, n - 1);
        if buckets[n - 1] == 0 {
            before
        } else {
            before + entry_text_pretty((n - 1) as nat, buckets[n - 1])
        }
    }
}

/// The multi-line text of the bucket map: `{}` when every bucket is empty.
pub open spec fn buckets_text_pretty(buckets: Seq<u64>) -> Seq<char> {
    let entries = entries_text_pretty(buckets, 64);
    if entries.len() == 0 {
        "{}"@
    } else {
        "{\n"@ + entries + "    }"@
    }
}

impl HistogramView {
    /// The one-line debug text.
    pub open spec fn debug_text(self) -> Seq<char> {
        "Histogram { n: "@ + decimal(self.event_count as nat) + ", ∑: "@ + option_text(
            self.reported_total(),
        ) + ", ∞: "@ + bool_text(self.has_overflowed) + ", ↓: "@ + option_text(
            self.min_event_time,
        ) + ", ↑: "@ + option_text(self.max_event_time) + ", b: {"@ + entries_text(
            self.buckets,
            64,
        ) + "} }"@
    }

    /// The multi-line debug text.
    pub open spec fn debug_text_pretty(self) -> Seq<char> {
        "Histogram {\n    event_count: "@ + decimal(self.event_count as nat)
            + ",\n    event_time_total: "@ + option_text_pretty(self.reported_total())
            + ",\n    has_overflowed: "@ + bool_text(self.has_overflowed)
            + ",\n    min_event_time: "@ + option_text_pretty(self.min_event_time)
            + ",\n    max_event_time: "@ + option_text_pretty(self.max_event_time)
            + ",\n    buckets: "@ + buckets_text_pretty(self.buckets) + ",\n}"@
    }
}

/// The one-character text of a decimal digit.
fn digit_str(d: u64) -> (text: &'static str)
    requires
        d < 10,
    ensures
        text@ == seq![digit_char(d as nat)],
{
    proof {
        reveal_strlit("0");
        reveal_strlit("1");
        reveal_strlit("2");
        reveal_strlit("3");
        reveal_strlit("4");
        reveal_strlit("5");
        reveal_strlit("6");
        reveal_strlit("7");
        reveal_strlit("8");
        reveal_strlit("9");
    }
    match d {
        0 => "0",
        1 => "1",
        2 => "2",
        3 => "3",
        4 => "4",
        5 => "5",
        6 => "6",
        7 => "7",
        8 => "8",
        _ => "9",
    }
}

/// The decimal text of `n`.
pub fn decimal_string(n: u64) -> (text: String)
    ensures
        text@ == decimal(n as nat),
    decreases n,
{
    if n < 10 {
        String::from_str(digit_str(n))
    } else {
        let mut text = decimal_string(n / 10);
        text.append(digit_str(n % 10));
        text
    }
}

/// Appends the text of a bool.
fn append_bool(text: &mut String, b: bool)
    ensures
        final(text)@ == old(text)@ + bool_text(b),
{
    if b {
        text.append("true");
    } else {
        text.append("false");
    }
}

/// Appends the one-line text of an optional number.
fn append_option(text: &mut String, value: Option<u64>)
    ensures
        final(text)@ == old(text)@ + option_text(value),
{
    match value {
        Some(n) => {
            let ghost start = text@;
            text.append("Some(");
            text.append(decimal_string(n).as_str());
            text.append(")");
            assert(text@ =~= start + option_text(value));
        },
        None => {
            text.append("None");
        },
    }
}

/// Appends the multi-line text of an optional number.
fn append_option_pretty(text: &mut String, value: Option<u64>)
    ensures
        final(text)@ == old(text)@ + option_text_pretty(value),
{
    match value {
        Some(n) => {
            let ghost start = text@;
            text.append("Some(\n        ");
            text.append(decimal_string(n).as_str());
            text.append(",\n    )");
            assert(text@ =~= start + option_text_pretty(value));
        },
        None => {
            text.append("None");
        },
    }
}

/// Decimal text is never empty.
pub proof fn lemma_decimal_nonempty(n: nat)
    ensures
        decimal(n).len() >= 1,
{
}

/// Appends the one-line entries of the non-empty buckets.
fn append_entries(text: &mut String, buckets: &[u64; 64])
    ensures
        final(text)@ == old(text)@ + entries_text(buckets@, 64),
{
    let ghost start = text@;
    let mut any = false;
    assert(text@ =~= start + entries_text(buckets@, 0));
    for i in 0usize..64usize
        invariant
            text@ == start + entries_text(buckets@, i as int),
            any == (entries_text(buckets@, i as int).len() > 0),
    {
        let count = buckets[i];
        if count > 0 {
            let ghost before = text@;
            if any {
                text.append(", ");
            }
            text.append(decimal_string(i as u64).as_str());
            text.append(": ");
            text.append(decimal_string(count).as_str());
            any = true;
            proof {
                lemma_decimal_nonempty(i as nat);
                if entries_text(buckets@, i as int).len() > 0 {
                    assert(text@ =~= start + entries_text(buckets@, i + 1));
                } else {
                    assert(text@ =~= start + entries_text(buckets@, i + 1));
                }
            }
        }
    }
}

/// Appends the multi-line entries of the non-empty buckets, and tells
/// whether there were any.
fn append_entries_pretty(text: &mut String, buckets: &[u64; 64]) -> (any: bool)
    ensures
        final(text)@ == old(text)@ + entries_text_pretty(buckets@, 64),
        any == (entries_text_pretty(buckets@, 64).len() > 0),
{
    let ghost start = text@;
    let mut any = false;
    assert(text@ =~= start + entries_text_pretty(buckets@, 0));
    for i in 0usize..64usize
        invariant
            text@ == start + entries_text_pretty(buckets@, i as int),
            any == (entries_text_pretty(buckets@, i as int).len() > 0),
    {
        let count = buckets[i];
        if count > 0 {
            text.append("        \"2^");
            text.append(decimal_string(i as u64).as_str());
            text.append("\": ");
            text.append(decimal_string(count).as_str());
            text.append(",\n");
            any = true;
            proof {
                lemma_decimal_nonempty(i as nat);
                assert(text@ =~= start + entries_text_pretty(buckets@, i + 1));
            }
        }
    }
    any
}

impl Histogram {
    /// The debug text of the histogram: the one-line form, or with
    /// `alternate` the multi-line form.
    pub fn to_debug_string(&self, alternate: bool) -> (text: String)
        ensures
            !alternate ==> text@ == self@.debug_text(),
            alternate ==> text@ == self@.debug_text_pretty(),
    {
        proof {
            self.lemma_view_fields();
        }
        let total = self.event_time_total();
        if alternate {
            let mut text = String::from_str("Histogram {\n    event_count: ");
            text.append(decimal_string(self.event_count as u64).as_str());
            text.append(",\n    event_time_total: ");
            append_option_pretty(&mut text, total);
            text.append(",\n    has_overflowed: ");
            append_bool(&mut text, self.has_overflowed);
            text.append(",\n    min_event_time: ");
            append_option_pretty(&mut text, self.min_event_time);
            text.append(",\n    max_event_time: ");
            append_option_pretty(&mut text, self.max_event_time);
            text.append(",\n    buckets: ");
            let ghost before_buckets = text@;
            let mut entries = String::new();
            let any = append_entries_pretty(&mut entries, &self.buckets);
            if any {
                text.append("{\n");
                text.append(entries.as_str());
                text.append("    }");
            } else {
                text.append("{}");
            }
            proof {
                assert(entries@ =~= entries_text_pretty(self@.buckets, 64));
                assert(text@ =~= before_buckets + buckets_text_pretty(self@.buckets));
            }
            text.append(",\n}");
            text
        } else {
            let mut text = String::from_str("Histogram { n: ");
            text.append(decimal_string(self.event_count as u64).as_str());
            text.append(", ∑: ");
            append_option(&mut text, total);
            text.append(", ∞: ");
            append_bool(&mut text, self.has_overflowed);
            text.append(", ↓: ");
            append_option(&mut text, self.min_event_time);
            text.append(", ↑: ");
            append_option(&mut text, self.max_event_time);
            text.append(", b: {");
            append_entries(&mut text, &self.buckets);
            text.append("} }");
            text
        }
    }
}

} // verus!
