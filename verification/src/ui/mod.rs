//! What the tabs of the window remember, decide and say. Drawing them, and the
//! work that they start, is left to the program around.

pub mod archive_tab;
pub mod big_folders_tab;
pub mod big_tab;
pub mod boot_tab;
pub mod copy_tab;
pub mod disk_usage_tab;
pub mod dup_tab;
pub mod large_files_tab;
pub mod listing;
pub mod organize_tab;
pub mod search_tab;
pub mod selection;
pub mod share_tab;
pub mod shell;
pub mod sync_tab;

use vstd::prelude::*;

use crate::text;
use crate::util;

verus! {

/// A message shown on the desktop.
#[derive(Debug, PartialEq, Eq)]
pub struct Notice {
    pub summary: String,
    pub body: String,
}

impl Notice {
    /// Whether the message has this heading and text.
    pub open spec fn says(self, summary: Seq<char>, body: Seq<char>) -> bool {
        self.summary@ == summary && self.body@ == body
    }
}

/// A log that became another by writing one line.
pub open spec fn wrote(before: util::Log, after: util::Log, line: Seq<char>) -> bool {
    &&& after.wf()
    &&& after.cap() == before.cap()
    &&& after@ == util::logged(before@, line, before.cap())
}

/// A log that became another by clearing it and writing one line.
pub open spec fn began(before: util::Log, after: util::Log, line: Seq<char>) -> bool {
    &&& after.wf()
    &&& after.cap() == before.cap()
    &&& after@ == util::logged(Seq::empty(), line, before.cap())
}

/// A log that became another by clearing it.
pub open spec fn emptied(before: util::Log, after: util::Log) -> bool {
    &&& after.wf()
    &&& after.cap() == before.cap()
    &&& after@ == Seq::<Seq<char>>::empty()
}

/// A number, then a text.
pub(crate) fn counted(n: usize, rest: &str) -> (r: String)
    ensures
        r@ == text::dec(n as nat) + rest@,
{
    let mut r = text::decimal(n as u64);
    r.append(rest);
    r
}

/// The line for something that went wrong with a file.
pub open spec fn error_line(shown: Seq<char>, message: Seq<char>) -> Seq<char> {
    "✗ "@ + shown + " — "@ + message
}

/// The line for something that went wrong with a file.
pub(crate) fn write_error(shown: &str, message: &str) -> (r: String)
    ensures
        r@ == error_line(shown@, message@),
{
    let mut r = "✗ ".to_owned();
    r.append(shown);
    r.append(" — ");
    r.append(message);
    r
}

/// A text that may be missing, as characters.
pub open spec fn text_of(s: Option<&str>) -> Option<Seq<char>> {
    match s {
        Some(t) => Some(t@),
        None => None,
    }
}

/// How much of something is done; the speed and the time left where they are
/// known.
pub open spec fn speed_line(
    done: u64,
    total: u64,
    rate: Option<u64>,
    left: Option<Seq<char>>,
) -> Seq<char> {
    let start = util::readable(done) + " of "@ + util::readable(total);
    let with_rate = match rate {
        Some(r) => start + " — "@ + util::readable(r) + "/s"@,
        None => start,
    };
    match left {
        Some(l) => with_rate + " — ~"@ + l + " remaining"@,
        None => with_rate,
    }
}

/// How much of something is done.
pub fn write_speed(done: u64, total: u64, rate: Option<u64>, left: Option<&str>) -> (r: String)
    ensures
        r@ == speed_line(done, total, rate, text_of(left)),
{
    let mut r = util::human_bytes(done);
    r.append(" of ");
    r.append(util::human_bytes(total).as_str());
    match rate {
        Some(bytes) => {
            r.append(" — ");
            r.append(util::human_bytes(bytes).as_str());
            r.append("/s");
        },
        None => {},
    }
    match left {
        Some(l) => {
            r.append(" — ~");
            r.append(l);
            r.append(" remaining");
        },
        None => {},
    }
    r
}

/// What is done stands before what there is, then the speed and the time left
/// where they are known.
pub proof fn law_done_stands_before_total(
    done: u64,
    total: u64,
    rate: u64,
    left: &str,
    a: String,
    b: String,
    c: String,
    short: String,
    long: String,
)
    requires
        call_ensures(util::human_bytes, (done,), a),
        call_ensures(util::human_bytes, (total,), b),
        call_ensures(util::human_rate, (rate,), c),
        call_ensures(write_speed, (done, total, None, None), short),
        call_ensures(write_speed, (done, total, Some(rate), Some(left)), long),
    ensures
        short@ == a@ + " of "@ + b@,
        long@ == short@ + " — "@ + c@ + " — ~"@ + left@ + " remaining"@,
{
    let start = a@ + " of "@ + b@;
    assert(start + " — "@ + c@ =~= start + " — "@ + util::readable(rate) + "/s"@);
}

} // verus!
