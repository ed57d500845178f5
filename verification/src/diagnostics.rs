//! The lines of the diagnostic log: one line per record, whatever the
//! message holds.

use vstd::prelude::*;
use crate::text::{chars_of, concat2, string_of};

verus! {

/// The message with each carriage return and line feed replaced by a space.
pub open spec fn single_line(s: Seq<char>) -> Seq<char> {
    s.map_values(|c: char| if c == '\r' || c == '\n' { ' ' } else { c })
}

/// A log line: the timestamp, a space, and the message on one line.
pub fn log_line(timestamp: &str, message: &str) -> (r: String)
    ensures
        r@ == timestamp@ + " "@ + single_line(message@),
{
    let m = chars_of(message);
    let mut out: Vec<char> = Vec::new();
    let mut i: usize = 0;
    while i < m.len()
        invariant
            i <= m@.len(),
            out@ == single_line(m@.take(i as int)),
        decreases m@.len() - i,
    {
        let c = m[i];
        out.push(if c == '\r' || c == '\n' { ' ' } else { c });
        i = i + 1;
        assert(single_line(m@.take(i as int)) =~= single_line(m@.take(i - 1 as int)).push(
            if c == '\r' || c == '\n' { ' ' } else { c },
        ));
    }
    assert(m@.take(m@.len() as int) == m@);
    let text = string_of(&out);
    crate::text::concat3(timestamp, " ", text.as_str())
}

/// The first record after start-up.
pub fn startup_message(version: &str) -> (r: String)
    ensures
        r@ == "app started version="@ + version@,
{
    concat2("app started version=", version)
}

/// A record is one line of the log: whatever the message holds, the text
/// written after the timestamp has no carriage return and no line feed, and
/// it is as long as the message.
pub proof fn lemma_record_is_one_line(message: Seq<char>)
    ensures
        single_line(message).len() == message.len(),
        forall|i: int|
            0 <= i < message.len() ==> #[trigger] single_line(message)[i] != '\r'
                && single_line(message)[i] != '\n',
{
}

} // verus!
