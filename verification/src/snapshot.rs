//! The snapshot reader: the last lines of a file, read in one go. It knows
//! nothing of any tracker and changes none.

use vstd::prelude::*;
use crate::lines::{collect_lines, text_lines, texts_of};

verus! {

/// The number of lines that a snapshot shows where the caller names none.
pub const DEFAULT_LINES: usize = 100;

/// How many of `total` lines a snapshot of at most `max_lines` shows.
pub open spec fn shown(total: nat, max_lines: nat) -> nat {
    if total > max_lines {
        max_lines
    } else {
        total
    }
}

/// The last `max_lines` of `all`, or all of them where there are fewer, in
/// their order.
pub open spec fn last_lines(all: Seq<Seq<char>>, max_lines: nat) -> Seq<Seq<char>> {
    all.skip(all.len() - shown(all.len(), max_lines))
}

/// The last lines of a file.
pub struct Snapshot {
    /// The lines shown, in the order of the file.
    pub lines: Vec<String>,
    /// The number of lines in the file.
    pub total: usize,
    /// The number of lines shown.
    pub showing: usize,
}

/// What a request for the recent lines of the log is answered with.
pub enum LogsReply {
    /// There is no log file.
    NotFound,
    /// The last lines of the log file.
    Found(Snapshot),
}

/// The number of lines to show for a request that names `lines`.
pub fn line_limit(lines: Option<usize>) -> (limit: usize)
    ensures
        limit == (match lines {
            Some(n) => n,
            None => DEFAULT_LINES,
        }),
{
    match lines {
        Some(n) => n,
        None => DEFAULT_LINES,
    }
}

/// Keeps the last `max_lines` of `lines`, in their order.
pub fn keep_last(lines: Vec<String>, max_lines: usize) -> (kept: Vec<String>)
    ensures
        texts_of(kept@) == last_lines(texts_of(lines@), max_lines as nat),
{
    let mut lines = lines;
    let total: usize = lines.len();
    let start: usize = if total > max_lines { total - max_lines } else { 0 };
    let ghost before = texts_of(lines@);
    let mut kept: Vec<String> = Vec::new();
    let mut i: usize = start;
    while i < total
        invariant
            total == lines@.len(),
            total == before.len(),
            start <= i <= total,
            forall|k: int| i <= k < total ==> lines@[k]@ == before[k],
            texts_of(kept@) =~= before.subrange(start as int, i as int),
        decreases total - i,
    {
        let mut line = String::new();
        std::mem::swap(&mut line, &mut lines[i]);
        let ghost shown_before = texts_of(kept@);
        kept.push(line);
        proof {
            assert(texts_of(kept@) =~= shown_before.push(before[i as int]));
        }
        i = i + 1;
    }
    kept
}

/// The last `max_lines` lines of a file whose bytes are `content`, with the
/// number of lines in the file and the number shown.
pub fn snapshot(content: &[u8], max_lines: usize) -> (s: Snapshot)
    ensures
        texts_of(s.lines@) == last_lines(text_lines(content@), max_lines as nat),
        s.total as nat == text_lines(content@).len(),
        s.showing as nat == shown(text_lines(content@).len(), max_lines as nat),
{
    let all = collect_lines(content);
    let total: usize = all.len();
    let lines = keep_last(all, max_lines);
    let showing: usize = lines.len();
    proof {
        assert(total == texts_of(all@).len());
        assert(showing == texts_of(lines@).len());
    }
    Snapshot { lines, total, showing }
}

/// Answers a request for the recent lines of the log: `content` holds the
/// bytes of the log file, or nothing where there is no such file, and `lines`
/// the number of lines asked for, if any.
pub fn get_logs(content: Option<&[u8]>, lines: Option<usize>) -> (reply: LogsReply)
    ensures
        content is None ==> reply is NotFound,
        content is Some ==> reply is Found,
        content is Some ==> ({
            let all = text_lines(content.unwrap()@);
            let limit = match lines {
                Some(n) => n,
                None => DEFAULT_LINES,
            };
            &&& texts_of(reply->Found_0.lines@) == last_lines(all, limit as nat)
            &&& reply->Found_0.total as nat == all.len()
            &&& reply->Found_0.showing as nat == shown(all.len(), limit as nat)
        }),
{
    match content {
        None => LogsReply::NotFound,
        Some(bytes) => LogsReply::Found(snapshot(bytes, line_limit(lines))),
    }
}

} // verus!
