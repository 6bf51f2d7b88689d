//! Operational bookkeeping around the corpus: how many commands were
//! handled, when the process started, and the status reply.

use vstd::prelude::*;
use crate::render::dec_str;
use crate::render::u64_to_string;

verus! {

/// Counts the commands handled since startup.
pub struct CommandCount {
    pub count: u64,
}

impl CommandCount {
    /// A counter at zero.
    pub fn new() -> (r: CommandCount)
        ensures
            r.count == 0,
    {
        CommandCount { count: 0 }
    }

    /// Counts one more handled command.
    pub fn increment(&mut self)
        requires
            old(self).count < 0xffff_ffff_ffff_ffff,
        ensures
            final(self).count == old(self).count + 1,
    {
        self.count = self.count + 1;
    }
}

/// Fixed facts about the running process: when it started (unix
/// seconds) and which version it runs.
pub struct Metadata {
    pub start: i64,
    pub version: String,
}

/// Splits a span of whole seconds of uptime into whole days, whole
/// hours of the last partial day, and whole minutes of the last partial
/// hour.
pub fn uptime_parts(total_secs: u64) -> (r: (u64, u64, u64))
    ensures
        r.0 == total_secs / 86400,
        r.1 == (total_secs % 86400) / 3600,
        r.2 == (total_secs % 3600) / 60,
{
    let days: u64 = total_secs / 86400;
    let hours: u64 = (total_secs % 86400) / 3600;
    let mins: u64 = (total_secs % 3600) / 60;
    (days, hours, mins)
}

/// The status reply: corpus size, commands handled, uptime split into
/// days, hours and minutes, and the version.
pub open spec fn status_message_seq(
    quotes: u64,
    queries: u64,
    secs: u64,
    version: Seq<char>,
) -> Seq<char> {
    "\nBot Status:\n```\nQuotes  :: "@ + dec_str(quotes as nat) + "\nQueries :: "@ + dec_str(
        queries as nat,
    ) + "\nUptime  :: "@ + dec_str((secs / 86400) as nat) + "d."@ + dec_str(
        ((secs % 86400) / 3600) as nat,
    ) + "h."@ + dec_str(((secs % 3600) / 60) as nat) + "m\nVersion :: "@ + version + "\n```"@
}

/// Builds the status reply from the corpus size, the command count, the
/// uptime in seconds, and the version.
pub fn status_message(quote_count: u64, query_count: u64, uptime_secs: u64, version: &str) -> (r:
    String)
    ensures
        r@ == status_message_seq(quote_count, query_count, uptime_secs, version@),
{
    let (days, hours, mins) = uptime_parts(uptime_secs);
    let mut out = String::new();
    out.append("\nBot Status:\n```\nQuotes  :: ");
    let s_quotes = u64_to_string(quote_count);
    out.append(s_quotes.as_str());
    out.append("\nQueries :: ");
    let s_queries = u64_to_string(query_count);
    out.append(s_queries.as_str());
    out.append("\nUptime  :: ");
    let s_days = u64_to_string(days);
    out.append(s_days.as_str());
    out.append("d.");
    let s_hours = u64_to_string(hours);
    out.append(s_hours.as_str());
    out.append("h.");
    let s_mins = u64_to_string(mins);
    out.append(s_mins.as_str());
    out.append("m\nVersion :: ");
    out.append(version);
    out.append("\n```");
    proof {
        assert(out@ =~= status_message_seq(quote_count, query_count, uptime_secs, version@));
    }
    out
}

} // verus!
