//! Values exchanged with the front end, and the layout of the error log.

use vstd::prelude::*;
use vstd::string::StringExecFns;
use crate::models::opt_string_view;

verus! {

/// Filters that narrow a search.
#[derive(Debug, Clone)]
pub struct SearchFilters {
    pub file_types: Vec<String>,
}

/// An error reported by the front end.
#[derive(Debug, Clone)]
pub struct ErrorLog {
    pub message: String,
    pub stack: Option<String>,
    pub component_stack: Option<String>,
    pub timestamp: String,
}

/// One search as the statistics remember it.
#[derive(Debug, Clone)]
pub struct SearchStats {
    pub query: String,
    pub results_count: usize,
    pub time_ms: u64,
    pub timestamp: String,
}

/// Width of the rule that closes an entry of the error log.
pub const LOG_RULE_WIDTH: usize = 80;

/// A rule of `n` dashes.
pub open spec fn dashes(n: nat) -> Seq<char> {
    Seq::new(n, |i: int| '-')
}

/// The text or, where there is none, `N/A`.
pub open spec fn or_not_available(text: Option<Seq<char>>) -> Seq<char> {
    match text {
        Some(text) => text,
        None => "N/A"@,
    }
}

/// An entry of the error log: the time and the message, the two stacks,
/// and a rule of dashes.
pub open spec fn error_entry(
    timestamp: Seq<char>,
    message: Seq<char>,
    stack: Option<Seq<char>>,
    component_stack: Option<Seq<char>>,
) -> Seq<char> {
    "\n["@ + timestamp + "] "@ + message + "\nStack: "@ + or_not_available(stack)
        + "\nComponent: "@ + or_not_available(component_stack) + "\n"@ + dashes(
        LOG_RULE_WIDTH as nat,
    ) + "\n"@
}

/// Lays out an error for the log file.
pub fn format_error_entry(error: &ErrorLog) -> (r: String)
    ensures
        r@ == error_entry(
            error.timestamp@,
            error.message@,
            opt_string_view(error.stack),
            opt_string_view(error.component_stack),
        ),
{
    let mut entry = "\n[".to_owned();
    entry.append(error.timestamp.as_str());
    entry.append("] ");
    entry.append(error.message.as_str());
    entry.append("\nStack: ");
    match &error.stack {
        Some(stack) => entry.append(stack.as_str()),
        None => entry.append("N/A"),
    }
    entry.append("\nComponent: ");
    match &error.component_stack {
        Some(stack) => entry.append(stack.as_str()),
        None => entry.append("N/A"),
    }
    entry.append("\n");
    let ghost head = entry@;
    let mut i: usize = 0;
    while i < LOG_RULE_WIDTH
        invariant
            i <= LOG_RULE_WIDTH,
            entry@ == head + dashes(i as nat),
        decreases LOG_RULE_WIDTH - i,
    {
        proof {
            reveal_strlit("-");
        }
        entry.append("-");
        assert(entry@ =~= head + dashes((i + 1) as nat));
        i += 1;
    }
    entry.append("\n");
    entry
}

} // verus!
