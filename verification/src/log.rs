//! The log panel's level filter: which log entries a filter shows.

use crate::text::str_eq;
use vstd::prelude::*;

verus! {

/// The level a log panel shows: every entry, or those of one level.
#[derive(Clone, Copy, PartialEq, Eq, Debug, Structural)]
pub enum FilterLevel {
    All,
    Info,
    Warn,
    Error,
    Debug,
}

/// Whether the filter shows an entry of level `level`: `All` shows every
/// entry, the others those whose level is `INFO`, `WARN`, `ERROR` or `DEBUG`.
pub open spec fn level_shown(filter: FilterLevel, level: Seq<char>) -> bool {
    match filter {
        FilterLevel::All => true,
        FilterLevel::Info => level == "INFO"@,
        FilterLevel::Warn => level == "WARN"@,
        FilterLevel::Error => level == "ERROR"@,
        FilterLevel::Debug => level == "DEBUG"@,
    }
}

/// Whether the filter shows an entry of level `level` (see [`level_shown`]).
pub fn shows_level(filter: FilterLevel, level: &str) -> (r: bool)
    ensures
        r == level_shown(filter, level@),
{
    match filter {
        FilterLevel::All => true,
        FilterLevel::Info => str_eq(level, "INFO"),
        FilterLevel::Warn => str_eq(level, "WARN"),
        FilterLevel::Error => str_eq(level, "ERROR"),
        FilterLevel::Debug => str_eq(level, "DEBUG"),
    }
}

/// A log entry (time, level, message) as text.
pub open spec fn entry_view(e: (String, String, String)) -> (Seq<char>, Seq<char>, Seq<char>) {
    (e.0@, e.1@, e.2@)
}

/// The entries that the filter shows, in their order.
pub open spec fn shown_entries(logs: Seq<(Seq<char>, Seq<char>, Seq<char>)>, filter: FilterLevel) -> Seq<
    (Seq<char>, Seq<char>, Seq<char>),
>
    decreases logs.len(),
{
    if logs.len() == 0 {
        Seq::empty()
    } else {
        let rest = shown_entries(logs.drop_last(), filter);
        if level_shown(filter, logs.last().1) {
            rest.push(logs.last())
        } else {
            rest
        }
    }
}

/// The log entries (time, level, message) that the filter shows, in order.
pub fn filter_logs(logs: &Vec<(String, String, String)>, filter: FilterLevel) -> (r: Vec<(String, String, String)>)
    ensures
        r@.map_values(|e: (String, String, String)| entry_view(e)) == shown_entries(
            logs@.map_values(|e: (String, String, String)| entry_view(e)),
            filter,
        ),
{
    let ghost views = logs@.map_values(|e: (String, String, String)| entry_view(e));
    let mut out: Vec<(String, String, String)> = Vec::new();
    let n = logs.len();
    let mut i: usize = 0;
    while i < n
        invariant
            n == logs@.len(),
            i <= n,
            views == logs@.map_values(|e: (String, String, String)| entry_view(e)),
            out@.map_values(|e: (String, String, String)| entry_view(e)) == shown_entries(
                views.take(i as int),
                filter,
            ),
        decreases n - i,
    {
        let e = &logs[i];
        proof {
            assert(views.take(i + 1).drop_last() =~= views.take(i as int));
            assert(views.take(i + 1).last() == entry_view(*e));
        }
        if shows_level(filter, e.1.as_str()) {
            let ghost before = out@;
            out.push((e.0.clone(), e.1.clone(), e.2.clone()));
            proof {
                assert(out@.map_values(|x: (String, String, String)| entry_view(x)) =~= before.map_values(
                    |x: (String, String, String)| entry_view(x),
                ).push(entry_view(*e)));
            }
        }
        i = i + 1;
    }
    proof {
        assert(views.take(n as int) =~= views);
    }
    out
}

} // verus!
