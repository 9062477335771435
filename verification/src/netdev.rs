//! Reading the byte counters of the network interfaces from the text of the
//! kernel's table of interfaces: two lines of headings, then one line for
//! each interface, with the received bytes in the second field and the
//! transmitted bytes in the tenth.

use vstd::prelude::*;
use crate::lines::{byte_lines, bytes_of, split_lines};
use crate::numbers::{parse_u64, parsed_u64};

verus! {

/// Whether `b` is a blank: a space, a tab, or one of the line ends and feeds.
pub open spec fn is_space(b: u8) -> bool {
    b == 32 || (9 <= b && b <= 13)
}

/// The length of the word at the start of `s`: the bytes before the first
/// blank.
pub open spec fn word_len(s: Seq<u8>) -> nat
    decreases s.len(),
{
    if s.len() == 0 || is_space(s[0]) {
        0
    } else {
        1 + word_len(s.skip(1))
    }
}

/// The fields of a line: its words, in order, without the blanks between
/// them.
pub open spec fn fields(s: Seq<u8>) -> Seq<Seq<u8>>
    decreases s.len(),
{
    if s.len() == 0 {
        Seq::empty()
    } else if is_space(s[0]) {
        fields(s.skip(1))
    } else {
        let n = word_len(s);
        if 0 < n <= s.len() {
            seq![s.take(n as int)] + fields(s.skip(n as int))
        } else {
            seq![s]
        }
    }
}

/// Whether a field names the loopback interface.
pub open spec fn is_loopback(field: Seq<u8>) -> bool {
    field.len() >= 3 && field[0] == 108 && field[1] == 111 && field[2] == 58
}

/// The number in a field, or 0 where it holds none.
pub open spec fn counter_of(field: Seq<u8>) -> u64 {
    match parsed_u64(field) {
        Some(n) => n,
        None => 0,
    }
}

/// The received and the transmitted bytes that one line counts: those of its
/// second and tenth field where it has ten fields and is not the loopback's.
pub open spec fn line_counters(line: Seq<u8>) -> (u64, u64) {
    let f = fields(line);
    if f.len() >= 10 && !is_loopback(f[0]) {
        (counter_of(f[1]), counter_of(f[9]))
    } else {
        (0, 0)
    }
}

/// The sum of two counters in 64 bits.
pub open spec fn sum64(a: u64, b: u64) -> u64 {
    ((a + b) % 0x1_0000_0000_0000_0000) as u64
}

/// The received and the transmitted bytes that these lines count together.
pub open spec fn totals(lines: Seq<Seq<u8>>) -> (u64, u64)
    decreases lines.len(),
{
    if lines.len() == 0 {
        (0, 0)
    } else {
        let before = totals(lines.drop_last());
        let here = line_counters(lines.last());
        (sum64(before.0, here.0), sum64(before.1, here.1))
    }
}

/// The lines of the table behind its two lines of headings.
pub open spec fn interface_lines(content: Seq<u8>) -> Seq<Seq<u8>> {
    let lines = byte_lines(content);
    if lines.len() > 2 {
        lines.skip(2)
    } else {
        Seq::empty()
    }
}

/// The received and the transmitted bytes of all interfaces but the loopback
/// that the table counts.
pub open spec fn network_totals(content: Seq<u8>) -> (u64, u64) {
    totals(interface_lines(content))
}

/// A scan that meets no blank before `n` fixes the first word: it ends at a
/// blank at `n`, or with the input.
proof fn lemma_word_len_scan(s: Seq<u8>, n: int)
    requires
        0 <= n <= s.len(),
        forall|k: int| 0 <= k < n ==> !is_space(s[k]),
        n < s.len() ==> is_space(s[n]),
    ensures
        word_len(s) == n,
    decreases n,
{
    if n > 0 {
        let t = s.skip(1);
        assert forall|k: int| 0 <= k < n - 1 implies !is_space(t[k]) by {
            assert(t[k] == s[k + 1]);
        }
        lemma_word_len_scan(t, n - 1);
    }
}

/// Whether `b` is a blank.
pub fn is_blank(b: u8) -> (yes: bool)
    ensures
        yes == is_space(b),
{
    b == 32 || (9 <= b && b <= 13)
}

/// Splits a line into its fields.
pub fn split_fields(line: &[u8]) -> (out: Vec<Vec<u8>>)
    ensures
        bytes_of(out@) == fields(line@),
{
    let mut out: Vec<Vec<u8>> = Vec::new();
    let len: usize = line.len();
    let mut pos: usize = 0;
    proof {
        assert(line@.skip(0) =~= line@);
    }
    while pos < len
        invariant
            len == line@.len(),
            pos <= len,
            fields(line@) =~= bytes_of(out@) + fields(line@.skip(pos as int)),
        decreases len - pos,
    {
        let ghost rest = line@.skip(pos as int);
        if is_blank(line[pos]) {
            proof {
                assert(rest[0] == line@[pos as int]);
                assert(rest.skip(1) =~= line@.skip(pos + 1));
            }
            pos = pos + 1;
        } else {
            let mut end: usize = pos;
            while end < len && !is_blank(line[end])
                invariant
                    len == line@.len(),
                    pos <= end <= len,
                    forall|k: int| pos <= k < end ==> !is_space(line@[k]),
                decreases len - end,
            {
                end = end + 1;
            }
            let word: Vec<u8> = vstd::slice::slice_to_vec(
                vstd::slice::slice_subrange(line, pos, end),
            );
            proof {
                assert(rest[0] == line@[pos as int]);
                assert forall|k: int| 0 <= k < end - pos implies !is_space(rest[k]) by {
                    assert(rest[k] == line@[pos + k]);
                }
                if end < len {
                    assert(rest[end - pos] == line@[end as int]);
                }
                lemma_word_len_scan(rest, end - pos);
                assert(end > pos);
                assert(rest.take(end - pos) =~= word@);
                assert(rest.skip(end - pos) =~= line@.skip(end as int));
                assert(fields(rest) =~= seq![word@] + fields(line@.skip(end as int)));
            }
            out.push(word);
            pos = end;
        }
    }
    proof {
        assert(fields(line@.skip(pos as int)) =~= Seq::<Seq<u8>>::empty());
    }
    out
}

/// The received and the transmitted bytes that one line counts.
pub fn count_line(line: &[u8]) -> (c: (u64, u64))
    ensures
        c == line_counters(line@),
{
    let f = split_fields(line);
    proof {
        assert(bytes_of(f@).len() == f@.len());
    }
    if f.len() < 10 {
        return (0, 0);
    }
    proof {
        assert(bytes_of(f@)[0] == f@[0]@);
        assert(bytes_of(f@)[1] == f@[1]@);
        assert(bytes_of(f@)[9] == f@[9]@);
    }
    let name = &f[0];
    if name.len() >= 3 && name[0] == 108 && name[1] == 111 && name[2] == 58 {
        return (0, 0);
    }
    let rx: u64 = match parse_u64(f[1].as_slice()) {
        Some(n) => n,
        None => 0,
    };
    let tx: u64 = match parse_u64(f[9].as_slice()) {
        Some(n) => n,
        None => 0,
    };
    (rx, tx)
}

/// The received and the transmitted bytes of all interfaces but the loopback,
/// read from the text of the table of interfaces.
pub fn get_network_stats_impl(content: &[u8]) -> (t: (u64, u64))
    ensures
        t == network_totals(content@),
{
    let lines = split_lines(content);
    let n: usize = lines.len();
    let mut received: u64 = 0;
    let mut transmitted: u64 = 0;
    if n <= 2 {
        proof {
            assert(bytes_of(lines@).len() == n);
        }
        return (0, 0);
    }
    let ghost table = interface_lines(content@);
    let mut i: usize = 2;
    proof {
        assert(bytes_of(lines@).len() == n);
        assert(table.take(0) =~= Seq::<Seq<u8>>::empty());
    }
    while i < n
        invariant
            n == lines@.len(),
            n > 2,
            2 <= i <= n,
            bytes_of(lines@) == byte_lines(content@),
            table == byte_lines(content@).skip(2),
            (received, transmitted) == totals(table.take(i - 2)),
        decreases n - i,
    {
        let c = count_line(lines[i].as_slice());
        proof {
            let upto = table.take(i - 2 + 1);
            assert(upto.drop_last() =~= table.take(i - 2));
            assert(upto.last() == bytes_of(lines@)[i as int]);
        }
        received = received.wrapping_add(c.0);
        transmitted = transmitted.wrapping_add(c.1);
        i = i + 1;
    }
    proof {
        assert(table.take(n - 2) =~= table);
    }
    (received, transmitted)
}

/// The received and the transmitted bytes in the report of one interface:
/// the seventh and the tenth field of its second line, where the report has a
/// second line and that line has ten fields. A field that holds no number
/// counts as 0.
pub open spec fn netstat_counters_of(output: Seq<u8>) -> Option<(u64, u64)> {
    let lines = byte_lines(output);
    if lines.len() > 1 && fields(lines[1]).len() >= 10 {
        Some((counter_of(fields(lines[1])[6]), counter_of(fields(lines[1])[9])))
    } else {
        None
    }
}

/// The number that a line holds: the line is one number with nothing but
/// blanks around it.
pub open spec fn number_on(line: Seq<u8>) -> Option<u64> {
    if fields(line).len() == 1 {
        parsed_u64(fields(line)[0])
    } else {
        None
    }
}

/// The number on the first of these lines that holds one.
pub open spec fn first_number_in(lines: Seq<Seq<u8>>) -> Option<u64>
    decreases lines.len(),
{
    if lines.len() == 0 {
        None
    } else {
        match number_on(lines[0]) {
            Some(n) => Some(n),
            None => first_number_in(lines.skip(1)),
        }
    }
}

/// The number on the first line of `output` that holds one.
pub open spec fn first_number_of(output: Seq<u8>) -> Option<u64> {
    first_number_in(byte_lines(output))
}

/// The received and the transmitted bytes in the report of one interface.
pub fn netstat_counters(output: &[u8]) -> (c: Option<(u64, u64)>)
    ensures
        c == netstat_counters_of(output@),
{
    let lines = split_lines(output);
    proof {
        assert(bytes_of(lines@).len() == lines@.len());
    }
    if lines.len() <= 1 {
        return None;
    }
    proof {
        assert(bytes_of(lines@)[1] == lines@[1]@);
    }
    let f = split_fields(lines[1].as_slice());
    proof {
        assert(bytes_of(f@).len() == f@.len());
    }
    if f.len() < 10 {
        return None;
    }
    proof {
        assert(bytes_of(f@)[6] == f@[6]@);
        assert(bytes_of(f@)[9] == f@[9]@);
    }
    let rx: u64 = match parse_u64(f[6].as_slice()) {
        Some(n) => n,
        None => 0,
    };
    let tx: u64 = match parse_u64(f[9].as_slice()) {
        Some(n) => n,
        None => 0,
    };
    Some((rx, tx))
}

/// The number on the first line of `output` that holds one.
pub fn first_number(output: &[u8]) -> (n: Option<u64>)
    ensures
        n == first_number_of(output@),
{
    let lines = split_lines(output);
    let ghost all = byte_lines(output@);
    let count: usize = lines.len();
    let mut i: usize = 0;
    proof {
        assert(bytes_of(lines@).len() == count);
        assert(all.skip(0) =~= all);
    }
    while i < count
        invariant
            count == lines@.len(),
            i <= count,
            bytes_of(lines@) == all,
            all == byte_lines(output@),
            first_number_in(all) == first_number_in(all.skip(i as int)),
        decreases count - i,
    {
        let f = split_fields(lines[i].as_slice());
        proof {
            assert(bytes_of(f@).len() == f@.len());
            assert(all.skip(i as int)[0] == bytes_of(lines@)[i as int]);
            assert(bytes_of(lines@)[i as int] == lines@[i as int]@);
            assert(all.skip(i as int).skip(1) =~= all.skip(i + 1));
        }
        if f.len() == 1 {
            proof {
                assert(bytes_of(f@)[0] == f@[0]@);
            }
            match parse_u64(f[0].as_slice()) {
                Some(n) => {
                    return Some(n);
                },
                None => {},
            }
        }
        i = i + 1;
    }
    proof {
        assert(all.skip(count as int).len() == 0);
    }
    None
}

} // verus!
