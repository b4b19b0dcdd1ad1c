//! Export of simulated fee points: time-window filtering, CSV and JSON encodings.

use vstd::prelude::*;

use crate::devkit::simulation::fee_model::FeePoint;
use crate::text::{bool_text, decimal, digit_char, push_bool, push_decimal, push_str, string_from_chars};

verus! {

/// Arguments for the `export` subcommand.
pub struct ExportArgs {
    /// Source SQLite database path.
    pub db: std::path::PathBuf,
    /// Output file path. Writes to stdout when `None`.
    pub output: Option<std::path::PathBuf>,
}

/// Time window filter for exports.
#[derive(Debug, Clone, Copy, PartialEq, Eq, Structural)]
pub enum Window {
    OneHour,
    SixHours,
    TwentyFourHours,
    All,
}

/// The window a command-line value names, if any.
pub open spec fn window_named(s: Seq<char>) -> Option<Window> {
    if s == "1h"@ {
        Some(Window::OneHour)
    } else if s == "6h"@ {
        Some(Window::SixHours)
    } else if s == "24h"@ {
        Some(Window::TwentyFourHours)
    } else if s == "all"@ {
        Some(Window::All)
    } else {
        None
    }
}

/// How many seconds back from the latest point a window reaches (`None`: no limit).
pub open spec fn window_seconds(w: Window) -> Option<u64> {
    match w {
        Window::OneHour => Some(3600),
        Window::SixHours => Some(21600),
        Window::TwentyFourHours => Some(86400),
        Window::All => None,
    }
}

impl Window {
    /// The window named on the command line (`1h`, `6h`, `24h` or `all`).
    pub fn parse(s: &str) -> (r: Option<Self>)
        ensures
            r == window_named(s@),
    {
        if crate::text::str_eq(s, "1h") {
            Some(Self::OneHour)
        } else if crate::text::str_eq(s, "6h") {
            Some(Self::SixHours)
        } else if crate::text::str_eq(s, "24h") {
            Some(Self::TwentyFourHours)
        } else if crate::text::str_eq(s, "all") {
            Some(Self::All)
        } else {
            None
        }
    }

    /// How far back the window reaches, in seconds; `None` for no limit.
    pub fn cutoff_seconds(&self) -> (r: Option<u64>)
        ensures
            r == window_seconds(*self),
    {
        match self {
            Self::OneHour => Some(3600),
            Self::SixHours => Some(21600),
            Self::TwentyFourHours => Some(86400),
            Self::All => None,
        }
    }
}

/// Latest timestamp among `s` (0 when empty).
pub open spec fn latest_timestamp(s: Seq<FeePoint>) -> u64
    decreases s.len(),
{
    if s.len() == 0 {
        0
    } else {
        let rest = latest_timestamp(s.drop_last());
        if s.last().timestamp > rest {
            s.last().timestamp
        } else {
            rest
        }
    }
}

/// Index of the first point whose timestamp is not below `cutoff` (`s.len()` when none is).
pub open spec fn first_not_before(s: Seq<FeePoint>, cutoff: u64) -> int
    decreases s.len(),
{
    if s.len() == 0 {
        0
    } else if s[0].timestamp >= cutoff {
        0
    } else {
        1 + first_not_before(s.drop_first(), cutoff)
    }
}

/// Points ordered by timestamp.
pub open spec fn chronological(s: Seq<FeePoint>) -> bool {
    forall|i: int, j: int| 0 <= i <= j < s.len() ==> s[i].timestamp <= s[j].timestamp
}

/// On points in time order, a window keeps exactly the points stamped at or after its
/// cutoff: everything before the split point is older, everything from it on is not.
pub proof fn lemma_window_keeps_exactly_recent(s: Seq<FeePoint>, cutoff: u64)
    requires
        chronological(s),
    ensures
        0 <= first_not_before(s, cutoff) <= s.len(),
        forall|i: int| 0 <= i < first_not_before(s, cutoff) ==> #[trigger] s[i].timestamp < cutoff,
        forall|i: int| first_not_before(s, cutoff) <= i < s.len() ==> #[trigger] s[i].timestamp >= cutoff,
    decreases s.len(),
{
    if s.len() > 0 && s[0].timestamp < cutoff {
        let rest = s.drop_first();
        assert forall|i: int, j: int| 0 <= i <= j < rest.len() implies rest[i].timestamp <= rest[j].timestamp by {
            assert(rest[i] == s[i + 1] && rest[j] == s[j + 1]);
        }
        lemma_window_keeps_exactly_recent(rest, cutoff);
        let k = first_not_before(s, cutoff);
        assert forall|i: int| 0 <= i < k implies #[trigger] s[i].timestamp < cutoff by {
            if i > 0 {
                assert(s[i] == rest[i - 1]);
            }
        }
        assert forall|i: int| k <= i < s.len() implies #[trigger] s[i].timestamp >= cutoff by {
            assert(s[i] == rest[i - 1]);
        }
    } else if s.len() > 0 {
        assert forall|i: int| 0 <= i < s.len() implies #[trigger] s[i].timestamp >= cutoff by {
            assert(s[0].timestamp <= s[i].timestamp);
        }
    }
}

/// The lowest timestamp that a window keeps, counted back from the latest point.
pub open spec fn window_cutoff(s: Seq<FeePoint>, secs: u64) -> u64 {
    if latest_timestamp(s) >= secs {
        (latest_timestamp(s) - secs) as u64
    } else {
        0
    }
}

/// One CSV row: `timestamp,fee,ledger,is_spike` and a newline.
pub open spec fn csv_row(p: FeePoint) -> Seq<char> {
    decimal(p.timestamp as nat) + seq![','] + decimal(p.fee as nat) + seq![','] + decimal(
        p.ledger as nat,
    ) + seq![','] + bool_text(p.is_spike) + seq!['\n']
}

/// The CSV rows of `s`, in order.
pub open spec fn csv_rows(s: Seq<FeePoint>) -> Seq<char>
    decreases s.len(),
{
    if s.len() == 0 {
        Seq::empty()
    } else {
        csv_rows(s.drop_last()) + csv_row(s.last())
    }
}

/// The CSV header line.
pub open spec fn csv_header() -> Seq<char> {
    "timestamp,fee,ledger,is_spike\n"@
}

/// The whole CSV document: the header line, then one row per point.
pub open spec fn csv_text(s: Seq<FeePoint>) -> Seq<char> {
    csv_header() + csv_rows(s)
}

/// How many times `c` occurs in `s`.
pub open spec fn occurrences(s: Seq<char>, c: char) -> nat
    decreases s.len(),
{
    if s.len() == 0 {
        0
    } else {
        occurrences(s.drop_last(), c) + if s.last() == c { 1nat } else { 0nat }
    }
}

proof fn lemma_occurrences_concat(a: Seq<char>, b: Seq<char>, c: char)
    ensures
        occurrences(a + b, c) == occurrences(a, c) + occurrences(b, c),
    decreases b.len(),
{
    if b.len() == 0 {
        assert(a + b =~= a);
    } else {
        assert((a + b).drop_last() =~= a + b.drop_last());
        lemma_occurrences_concat(a, b.drop_last(), c);
    }
}

proof fn lemma_digit_not_newline(d: nat)
    requires
        d < 10,
    ensures
        digit_char(d) != '\n',
{
    assert(((48 + d) as char) as int == 48 + d);
}

proof fn lemma_no_newline_in_decimal(n: nat)
    ensures
        occurrences(decimal(n), '\n') == 0,
    decreases n,
{
    if n >= 10 {
        lemma_no_newline_in_decimal(n / 10);
        lemma_digit_not_newline(n % 10);
        assert(decimal(n).drop_last() =~= decimal(n / 10));
    } else {
        lemma_digit_not_newline(n);
        assert(decimal(n).drop_last() =~= Seq::<char>::empty());
        assert(occurrences(Seq::<char>::empty(), '\n') == 0);
    }
}

proof fn lemma_row_has_one_newline(p: FeePoint)
    ensures
        occurrences(csv_row(p), '\n') == 1,
{
    lemma_no_newline_in_decimal(p.timestamp as nat);
    lemma_no_newline_in_decimal(p.fee as nat);
    lemma_no_newline_in_decimal(p.ledger as nat);
    let comma = seq![','];
    assert(occurrences(comma, '\n') == 0) by {
        assert(comma.drop_last() =~= Seq::<char>::empty());
        assert(occurrences(Seq::<char>::empty(), '\n') == 0);
        assert(comma.last() == ',');
    }
    let b = bool_text(p.is_spike);
    assert(occurrences(b, '\n') == 0) by {
        reveal_with_fuel(occurrences, 6);
    }
    let nl = seq!['\n'];
    assert(occurrences(nl, '\n') == 1) by {
        assert(nl.drop_last() =~= Seq::<char>::empty());
        assert(occurrences(Seq::<char>::empty(), '\n') == 0);
        assert(nl.last() == '\n');
    }
    let t = decimal(p.timestamp as nat);
    let f = decimal(p.fee as nat);
    let l = decimal(p.ledger as nat);
    lemma_occurrences_concat(t, comma, '\n');
    lemma_occurrences_concat(t + comma, f, '\n');
    lemma_occurrences_concat(t + comma + f, comma, '\n');
    lemma_occurrences_concat(t + comma + f + comma, l, '\n');
    lemma_occurrences_concat(t + comma + f + comma + l, comma, '\n');
    lemma_occurrences_concat(t + comma + f + comma + l + comma, b, '\n');
    lemma_occurrences_concat(t + comma + f + comma + l + comma + b, nl, '\n');
}

/// The CSV export has one line per point after its header line: as many line breaks as
/// points, plus one.
pub proof fn lemma_csv_line_count(s: Seq<FeePoint>)
    ensures
        occurrences(csv_text(s), '\n') == s.len() + 1,
    decreases s.len(),
{
    lemma_csv_rows_lines(s);
    lemma_occurrences_concat(csv_header(), csv_rows(s), '\n');
    assert(occurrences(csv_header(), '\n') == 1) by {
        reveal_strlit("timestamp,fee,ledger,is_spike\n");
        let h = csv_header();
        lemma_occurrences_concat(h.drop_last(), seq![h.last()], '\n');
        assert(h.drop_last() + seq![h.last()] =~= h);
        lemma_no_occurrence(h.drop_last(), '\n');
        assert(seq![h.last()].drop_last() =~= Seq::<char>::empty());
        assert(occurrences(Seq::<char>::empty(), '\n') == 0);
    }
}

proof fn lemma_no_occurrence(s: Seq<char>, c: char)
    requires
        forall|i: int| 0 <= i < s.len() ==> s[i] != c,
    ensures
        occurrences(s, c) == 0,
    decreases s.len(),
{
    if s.len() > 0 {
        assert forall|i: int| 0 <= i < s.drop_last().len() implies s.drop_last()[i] != c by {
            assert(s.drop_last()[i] == s[i]);
        }
        lemma_no_occurrence(s.drop_last(), c);
    }
}

proof fn lemma_csv_rows_lines(s: Seq<FeePoint>)
    ensures
        occurrences(csv_rows(s), '\n') == s.len(),
    decreases s.len(),
{
    if s.len() > 0 {
        lemma_csv_rows_lines(s.drop_last());
        lemma_row_has_one_newline(s.last());
        lemma_occurrences_concat(csv_rows(s.drop_last()), csv_row(s.last()), '\n');
    }
}

/// One JSON object for a point.
pub open spec fn json_item(p: FeePoint) -> Seq<char> {
    "{\"timestamp\":"@ + decimal(p.timestamp as nat) + ",\"fee\":"@ + decimal(p.fee as nat)
        + ",\"ledger\":"@ + decimal(p.ledger as nat) + ",\"is_spike\":"@ + bool_text(p.is_spike)
        + "}"@
}

/// The JSON objects of `s`, separated by commas.
pub open spec fn json_items(s: Seq<FeePoint>) -> Seq<char>
    decreases s.len(),
{
    if s.len() == 0 {
        Seq::empty()
    } else if s.len() == 1 {
        json_item(s[0])
    } else {
        json_items(s.drop_last()) + seq![','] + json_item(s.last())
    }
}

/// The whole JSON array.
pub open spec fn json_text(s: Seq<FeePoint>) -> Seq<char> {
    seq!['['] + json_items(s) + seq![']']
}

/// Exports devkit results to external formats.
pub struct Export;

fn push_csv_row(out: &mut Vec<char>, p: &FeePoint)
    ensures
        final(out)@ == old(out)@ + csv_row(*p),
{
    let ghost start = out@;
    push_decimal(out, p.timestamp);
    out.push(',');
    push_decimal(out, p.fee);
    out.push(',');
    push_decimal(out, p.ledger);
    out.push(',');
    push_bool(out, p.is_spike);
    out.push('\n');
    assert(out@ =~= start + csv_row(*p));
}

fn push_json_item(out: &mut Vec<char>, p: &FeePoint)
    ensures
        final(out)@ == old(out)@ + json_item(*p),
{
    let ghost start = out@;
    push_str(out, "{\"timestamp\":");
    push_decimal(out, p.timestamp);
    push_str(out, ",\"fee\":");
    push_decimal(out, p.fee);
    push_str(out, ",\"ledger\":");
    push_decimal(out, p.ledger);
    push_str(out, ",\"is_spike\":");
    push_bool(out, p.is_spike);
    push_str(out, "}");
    assert(out@ =~= start + json_item(*p));
}

impl Export {
    /// Filter points by window relative to the latest timestamp.
    pub fn filter_window(points: &[FeePoint], window: Window) -> (r: &[FeePoint])
        ensures
            match window_seconds(window) {
                None => r@ == points@,
                Some(secs) => r@ == points@.subrange(
                    first_not_before(points@, window_cutoff(points@, secs)),
                    points@.len() as int,
                ),
            },
    {
        match window.cutoff_seconds() {
            None => points,
            Some(secs) => {
                let n = points.len();
                let mut max_ts: u64 = 0;
                let mut i: usize = 0;
                while i < n
                    invariant
                        n == points@.len(),
                        0 <= i <= n,
                        max_ts == latest_timestamp(points@.take(i as int)),
                    decreases n - i,
                {
                    proof {
                        assert(points@.take(i + 1).drop_last() =~= points@.take(i as int));
                    }
                    if points[i].timestamp > max_ts {
                        max_ts = points[i].timestamp;
                    }
                    i = i + 1;
                }
                proof {
                    assert(points@.take(n as int) =~= points@);
                }
                let cutoff = max_ts.saturating_sub(secs);
                let mut start: usize = 0;
                while start < n && points[start].timestamp < cutoff
                    invariant
                        n == points@.len(),
                        0 <= start <= n,
                        first_not_before(points@, cutoff) == start + first_not_before(
                            points@.subrange(start as int, n as int),
                            cutoff,
                        ),
                    decreases n - start,
                {
                    proof {
                        let rest = points@.subrange(start as int, n as int);
                        assert(rest.drop_first() =~= points@.subrange(start + 1, n as int));
                    }
                    start = start + 1;
                }
                proof {
                    let rest = points@.subrange(start as int, n as int);
                    assert(rest.len() == 0 || rest[0].timestamp >= cutoff);
                    assert(first_not_before(rest, cutoff) == 0);
                }
                &points[start..n]
            },
        }
    }

    /// Serialize fee points to CSV: timestamp,fee,ledger,is_spike.
    pub fn to_csv(points: &[FeePoint]) -> (r: String)
        ensures
            r@ == csv_text(points@),
    {
        let mut out: Vec<char> = Vec::new();
        push_str(&mut out, "timestamp,fee,ledger,is_spike\n");
        let n = points.len();
        let mut i: usize = 0;
        while i < n
            invariant
                n == points@.len(),
                0 <= i <= n,
                out@ == csv_header() + csv_rows(points@.take(i as int)),
            decreases n - i,
        {
            proof {
                assert(points@.take(i + 1).drop_last() =~= points@.take(i as int));
            }
            push_csv_row(&mut out, &points[i]);
            i = i + 1;
        }
        proof {
            assert(points@.take(n as int) =~= points@);
        }
        string_from_chars(&out)
    }

    /// Serialize fee points to a JSON array.
    pub fn to_json(points: &[FeePoint]) -> (r: String)
        ensures
            r@ == json_text(points@),
    {
        let mut out: Vec<char> = Vec::new();
        out.push('[');
        let n = points.len();
        let mut i: usize = 0;
        while i < n
            invariant
                n == points@.len(),
                0 <= i <= n,
                out@ == seq!['['] + json_items(points@.take(i as int)),
            decreases n - i,
        {
            proof {
                assert(points@.take(i + 1).drop_last() =~= points@.take(i as int));
            }
            if i > 0 {
                out.push(',');
            }
            push_json_item(&mut out, &points[i]);
            proof {
                if i == 0 {
                    assert(points@.take(1) =~= seq![points@[0]]);
                }
                assert(out@ =~= seq!['['] + json_items(points@.take(i + 1)));
            }
            i = i + 1;
        }
        out.push(']');
        proof {
            assert(points@.take(n as int) =~= points@);
            assert(out@ =~= json_text(points@));
        }
        string_from_chars(&out)
    }
}

} // verus!
