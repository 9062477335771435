//! Splitting a run of bytes into lines of text.
//!
//! A run of bytes is cut into segments: each segment ends with its line feed,
//! except possibly the last one, which is then an unterminated line. The text
//! of a line is its segment without the terminator (`\n` or `\r\n`). Lines
//! that are not valid UTF-8 are left out when lines are turned into strings.

use vstd::prelude::*;
use vstd::utf8::*;

verus! {

/// Line feed.
pub const LF: u8 = 10u8;

/// Carriage return.
pub const CR: u8 = 13u8;

/// Length of the first segment of `s`: everything up to and including the
/// first line feed, or all of `s` where it holds none.
pub open spec fn segment_len(s: Seq<u8>) -> nat
    decreases s.len(),
{
    if s.len() == 0 {
        0
    } else if s[0] == LF {
        1
    } else {
        1 + segment_len(s.skip(1))
    }
}

/// The segments of `s`, in order.
pub open spec fn segments(s: Seq<u8>) -> Seq<Seq<u8>>
    decreases s.len(),
{
    if s.len() == 0 {
        Seq::empty()
    } else {
        let n = segment_len(s);
        if 0 < n <= s.len() {
            seq![s.take(n as int)] + segments(s.skip(n as int))
        } else {
            seq![s]
        }
    }
}

/// The text of a segment: the segment without its terminator.
pub open spec fn line_text(seg: Seq<u8>) -> Seq<u8> {
    if seg.len() > 0 && seg.last() == LF {
        let body = seg.drop_last();
        if body.len() > 0 && body.last() == CR {
            body.drop_last()
        } else {
            body
        }
    } else {
        seg
    }
}

/// The lines of `s` as bytes, in order.
pub open spec fn byte_lines(s: Seq<u8>) -> Seq<Seq<u8>> {
    Seq::new(segments(s).len(), |i: int| line_text(segments(s)[i]))
}

/// The lines among `raw` that are valid UTF-8, decoded, in order.
pub open spec fn decoded(raw: Seq<Seq<u8>>) -> Seq<Seq<char>>
    decreases raw.len(),
{
    if raw.len() == 0 {
        Seq::empty()
    } else if valid_utf8(raw.last()) {
        decoded(raw.drop_last()).push(decode_utf8(raw.last()))
    } else {
        decoded(raw.drop_last())
    }
}

/// The lines of text that `s` holds.
pub open spec fn text_lines(s: Seq<u8>) -> Seq<Seq<char>> {
    decoded(byte_lines(s))
}

/// What a vector of byte vectors holds.
pub open spec fn bytes_of(v: Seq<Vec<u8>>) -> Seq<Seq<u8>> {
    Seq::new(v.len(), |i: int| v[i]@)
}

/// What a vector of strings holds.
pub open spec fn texts_of(v: Seq<String>) -> Seq<Seq<char>> {
    Seq::new(v.len(), |i: int| v[i]@)
}

/// The first segment is never longer than the bytes, and is empty only for
/// empty input.
proof fn lemma_segment_len_bounds(s: Seq<u8>)
    ensures
        segment_len(s) <= s.len(),
        s.len() > 0 ==> segment_len(s) > 0,
    decreases s.len(),
{
    if s.len() > 0 && s[0] != LF {
        lemma_segment_len_bounds(s.skip(1));
    }
}

/// A scan that meets no line feed before `n` fixes the first segment: it ends
/// right after a line feed at `n`, or with the input.
proof fn lemma_segment_len_scan(s: Seq<u8>, n: int)
    requires
        0 <= n <= s.len(),
        forall|k: int| 0 <= k < n ==> s[k] != LF,
        n < s.len() ==> s[n] == LF,
    ensures
        segment_len(s) == (if n < s.len() { n + 1 } else { n }),
    decreases n,
{
    if n > 0 {
        let t = s.skip(1);
        assert forall|k: int| 0 <= k < n - 1 implies t[k] != LF by {
            assert(t[k] == s[k + 1]);
        }
        lemma_segment_len_scan(t, n - 1);
    }
}

/// A segment of the right shape: not empty, and with no line feed but
/// possibly as its last byte.
pub open spec fn is_segment(seg: Seq<u8>) -> bool {
    &&& seg.len() > 0
    &&& forall|k: int| 0 <= k < seg.len() - 1 ==> seg[k] != LF
}

/// The segments keep the bytes and their order: put end to end in the order
/// in which they are returned, they are the input. Each has the shape of a
/// segment, and each but the last ends with its line feed.
pub proof fn lemma_segments_cover(s: Seq<u8>)
    ensures
        segments(s).flatten() == s,
        forall|i: int| 0 <= i < segments(s).len() ==> is_segment(#[trigger] segments(s)[i]),
        forall|i: int| 0 <= i < segments(s).len() - 1 ==> (#[trigger] segments(s)[i]).last() == LF,
        byte_lines(s).len() == segments(s).len(),
    decreases s.len(),
{
    if s.len() == 0 {
        assert(segments(s).flatten() =~= s);
    } else {
        lemma_segment_len_bounds(s);
        let n = segment_len(s) as int;
        let head = s.take(n);
        let rest = s.skip(n);
        let tail = segments(rest);
        lemma_segments_cover(rest);
        let all = segments(s);
        assert(all == seq![head] + tail);
        assert(all.first() == head);
        assert(all.drop_first() =~= tail);
        assert(all.flatten() =~= s);
        lemma_first_segment_shape(s);
        assert forall|i: int| 0 <= i < all.len() implies is_segment(#[trigger] all[i]) by {
            if i > 0 {
                assert(all[i] == tail[i - 1]);
            }
        }
        assert forall|i: int| 0 <= i < all.len() - 1 implies (#[trigger] all[i]).last() == LF by {
            if i > 0 {
                assert(all[i] == tail[i - 1]);
            } else {
                assert(tail.len() > 0);
                assert(rest.len() > 0);
            }
        }
    }
}

/// The first segment has the shape of a segment, and ends with a line feed
/// where bytes follow it.
proof fn lemma_first_segment_shape(s: Seq<u8>)
    requires
        s.len() > 0,
    ensures
        segment_len(s) <= s.len(),
        is_segment(s.take(segment_len(s) as int)),
        segment_len(s) < s.len() ==> s[segment_len(s) - 1] == LF,
    decreases s.len(),
{
    lemma_segment_len_bounds(s);
    if s[0] != LF {
        let t = s.skip(1);
        lemma_segment_len_bounds(t);
        let seg = s.take(segment_len(s) as int);
        if t.len() > 0 {
            lemma_first_segment_shape(t);
            let inner = t.take(segment_len(t) as int);
            assert forall|k: int| 0 <= k < seg.len() - 1 implies seg[k] != LF by {
                if k > 0 {
                    assert(seg[k] == inner[k - 1]);
                }
            }
            if segment_len(s) < s.len() {
                assert(s[segment_len(s) - 1] == t[segment_len(t) - 1]);
            }
        }
    }
}

/// The places in `raw` of the lines that are valid UTF-8, in rising order.
pub open spec fn kept(raw: Seq<Seq<u8>>) -> Seq<int>
    decreases raw.len(),
{
    if raw.len() == 0 {
        Seq::empty()
    } else if valid_utf8(raw.last()) {
        kept(raw.drop_last()).push(raw.len() - 1)
    } else {
        kept(raw.drop_last())
    }
}

/// Decoding keeps the order of the lines: the decoded lines are those of the
/// valid places, each decoded, and the places rise with the lines. No valid
/// line is left out.
pub proof fn lemma_decoded_keeps_order(raw: Seq<Seq<u8>>)
    ensures
        decoded(raw).len() == kept(raw).len(),
        forall|j: int|
            0 <= j < kept(raw).len() ==> {
                &&& 0 <= (#[trigger] kept(raw)[j]) < raw.len()
                &&& valid_utf8(raw[kept(raw)[j]])
                &&& decoded(raw)[j] == decode_utf8(raw[kept(raw)[j]])
            },
        forall|j: int, k: int| 0 <= j < k < kept(raw).len() ==> kept(raw)[j] < kept(raw)[k],
        forall|i: int| 0 <= i < raw.len() && valid_utf8(#[trigger] raw[i]) ==> kept(raw).contains(i),
    decreases raw.len(),
{
    if raw.len() > 0 {
        let init = raw.drop_last();
        lemma_decoded_keeps_order(init);
        let last = raw.len() - 1;
        assert forall|i: int| 0 <= i < raw.len() && valid_utf8(#[trigger] raw[i]) implies kept(
            raw,
        ).contains(i) by {
            if i < last {
                assert(init[i] == raw[i]);
                let j = choose|j: int| 0 <= j < kept(init).len() && kept(init)[j] == i;
                assert(kept(raw)[j] == i);
            } else {
                assert(kept(raw)[kept(raw).len() - 1] == i);
            }
        }
        assert forall|j: int| 0 <= j < kept(raw).len() implies {
            &&& 0 <= (#[trigger] kept(raw)[j]) < raw.len()
            &&& valid_utf8(raw[kept(raw)[j]])
            &&& decoded(raw)[j] == decode_utf8(raw[kept(raw)[j]])
        } by {
            if j < kept(init).len() {
                assert(kept(raw)[j] == kept(init)[j]);
                assert(init[kept(init)[j]] == raw[kept(init)[j]]);
            }
        }
    }
}

/// The lines of text come in the order of the bytes: the segments put end to
/// end are the input, each line of text is the decoded text of one segment,
/// and a later line comes from a later segment.
pub proof fn lemma_text_lines_keep_order(s: Seq<u8>)
    ensures
        segments(s).flatten() == s,
        text_lines(s).len() == kept(byte_lines(s)).len(),
        forall|j: int|
            0 <= j < text_lines(s).len() ==> {
                &&& 0 <= (#[trigger] kept(byte_lines(s))[j]) < segments(s).len()
                &&& text_lines(s)[j] == decode_utf8(
                    line_text(segments(s)[kept(byte_lines(s))[j]]),
                )
            },
        forall|j: int, k: int|
            0 <= j < k < text_lines(s).len() ==> kept(byte_lines(s))[j] < kept(byte_lines(s))[k],
{
    lemma_segments_cover(s);
    lemma_decoded_keeps_order(byte_lines(s));
}

/// Valid UTF-8 stays valid on both sides of a byte below 128: such a byte is
/// a character of its own.
proof fn lemma_valid_around_ascii(s: Seq<u8>, i: int)
    requires
        valid_utf8(s),
        0 <= i < s.len(),
        s[i] < 128,
    ensures
        valid_utf8(s.subrange(0, i)),
        valid_utf8(s.subrange(i + 1, s.len() as int)),
{
    is_char_boundary_iff_not_is_continuation_byte(s, i);
    valid_utf8_split(s, i);
    let t = s.subrange(i, s.len() as int);
    assert(t[0] == s[i]);
    assert(length_of_first_scalar(t) == 1);
    assert(pop_first_scalar(t) =~= s.subrange(i + 1, s.len() as int));
}

/// Every line of bytes that are valid UTF-8 is valid UTF-8.
pub proof fn lemma_lines_of_valid_are_valid(s: Seq<u8>)
    requires
        valid_utf8(s),
    ensures
        forall|i: int| 0 <= i < byte_lines(s).len() ==> valid_utf8(#[trigger] byte_lines(s)[i]),
    decreases s.len(),
{
    if s.len() > 0 {
        lemma_segment_len_bounds(s);
        let n = segment_len(s) as int;
        let head = s.take(n);
        let rest = s.skip(n);
        assert(segments(s) == seq![head] + segments(rest));
        assert(valid_utf8(line_text(head)) && valid_utf8(rest)) by {
            if head.last() == LF {
                assert(s[n - 1] == LF);
                lemma_valid_around_ascii(s, n - 1);
                let body = head.drop_last();
                assert(body =~= s.subrange(0, n - 1));
                assert(rest =~= s.subrange(n, s.len() as int));
                if body.len() > 0 && body.last() == CR {
                    lemma_valid_around_ascii(body, n - 2);
                    assert(body.drop_last() =~= body.subrange(0, n - 2));
                }
            } else {
                lemma_first_segment_shape(s);
                assert(n == s.len());
                assert(head =~= s);
                assert(rest =~= Seq::<u8>::empty());
            }
        }
        lemma_lines_of_valid_are_valid(rest);
        assert forall|i: int| 0 <= i < byte_lines(s).len() implies valid_utf8(
            #[trigger] byte_lines(s)[i],
        ) by {
            if i > 0 {
                assert(segments(s)[i] == segments(rest)[i - 1]);
                assert(byte_lines(s)[i] == byte_lines(rest)[i - 1]);
            } else {
                assert(segments(s)[0] == head);
            }
        }
    }
}

/// Lines that are all valid UTF-8 are all decoded, each in its place.
pub proof fn lemma_decoded_of_valid(raw: Seq<Seq<u8>>)
    requires
        forall|i: int| 0 <= i < raw.len() ==> valid_utf8(#[trigger] raw[i]),
    ensures
        decoded(raw).len() == raw.len(),
        forall|i: int| 0 <= i < raw.len() ==> #[trigger] decoded(raw)[i] == decode_utf8(raw[i]),
    decreases raw.len(),
{
    if raw.len() > 0 {
        let init = raw.drop_last();
        assert forall|i: int| 0 <= i < init.len() implies valid_utf8(#[trigger] init[i]) by {
            assert(init[i] == raw[i]);
        }
        lemma_decoded_of_valid(init);
        assert(valid_utf8(raw.last()));
        assert forall|i: int| 0 <= i < raw.len() implies #[trigger] decoded(raw)[i]
            == decode_utf8(raw[i]) by {
            if i < init.len() {
                assert(decoded(raw)[i] == decoded(init)[i]);
                assert(init[i] == raw[i]);
            }
        }
    }
}

/// Bytes that are valid UTF-8 lose no line: every line of bytes is a line of
/// text, in its place.
pub proof fn lemma_valid_text_keeps_every_line(s: Seq<u8>)
    requires
        valid_utf8(s),
    ensures
        text_lines(s).len() == byte_lines(s).len(),
        forall|i: int|
            0 <= i < byte_lines(s).len() ==> #[trigger] text_lines(s)[i] == decode_utf8(
                byte_lines(s)[i],
            ),
{
    lemma_lines_of_valid_are_valid(s);
    lemma_decoded_of_valid(byte_lines(s));
}

/// In front of bytes that end a line, or of none, the first segment is the
/// same whatever follows.
proof fn lemma_segment_len_of_appended(a: Seq<u8>, b: Seq<u8>)
    requires
        a.len() > 0,
        a.last() == LF,
    ensures
        segment_len(a + b) == segment_len(a),
    decreases a.len(),
{
    let ab = a + b;
    assert(ab[0] == a[0]);
    if a[0] != LF {
        assert(ab.skip(1) =~= a.skip(1) + b);
        assert(a.skip(1).last() == a.last());
        lemma_segment_len_of_appended(a.skip(1), b);
    }
}

/// Bytes written behind a file that ends with a line feed, or behind an empty
/// one, add their segments to those of the file.
pub proof fn lemma_segments_of_appended(a: Seq<u8>, b: Seq<u8>)
    requires
        a.len() == 0 || a.last() == LF,
    ensures
        segments(a + b) == segments(a) + segments(b),
    decreases a.len(),
{
    if a.len() == 0 {
        assert(a + b =~= b);
        assert(segments(a) + segments(b) =~= segments(b));
    } else {
        lemma_segment_len_bounds(a);
        lemma_segment_len_of_appended(a, b);
        let n = segment_len(a) as int;
        let ab = a + b;
        assert(ab.take(n) =~= a.take(n));
        assert(ab.skip(n) =~= a.skip(n) + b);
        if a.skip(n).len() > 0 {
            assert(a.skip(n).last() == a.last());
        }
        lemma_segments_of_appended(a.skip(n), b);
        assert(segments(ab) =~= segments(a) + segments(b));
    }
}

/// Decoding two runs of lines one after the other decodes their chain.
proof fn lemma_decoded_of_chain(x: Seq<Seq<u8>>, y: Seq<Seq<u8>>)
    ensures
        decoded(x + y) == decoded(x) + decoded(y),
    decreases y.len(),
{
    if y.len() == 0 {
        assert(x + y =~= x);
        assert(decoded(x) + decoded(y) =~= decoded(x));
    } else {
        assert((x + y).drop_last() =~= x + y.drop_last());
        assert((x + y).last() == y.last());
        lemma_decoded_of_chain(x, y.drop_last());
        assert(decoded(x + y) =~= decoded(x) + decoded(y));
    }
}

/// Nothing is lost or doubled at the seam of two reads: behind a file that
/// ends with a line feed, or an empty one, the lines of the whole are the
/// lines of the file followed by the lines of what was written behind it.
pub proof fn lemma_lines_of_appended(a: Seq<u8>, b: Seq<u8>)
    requires
        a.len() == 0 || a.last() == LF,
    ensures
        text_lines(a + b) == text_lines(a) + text_lines(b),
{
    lemma_segments_of_appended(a, b);
    assert(byte_lines(a + b) =~= byte_lines(a) + byte_lines(b));
    lemma_decoded_of_chain(byte_lines(a), byte_lines(b));
}

/// Splits `bytes` into its lines, as bytes.
pub fn split_lines(bytes: &[u8]) -> (out: Vec<Vec<u8>>)
    ensures
        bytes_of(out@) == byte_lines(bytes@),
{
    let mut out: Vec<Vec<u8>> = Vec::new();
    let mut pos: usize = 0;
    let len: usize = bytes.len();
    proof {
        assert(bytes@.skip(0) =~= bytes@);
    }
    while pos < len
        invariant
            len == bytes@.len(),
            pos <= len,
            byte_lines(bytes@) =~= bytes_of(out@) + byte_lines(bytes@.skip(pos as int)),
        decreases len - pos,
    {
        let ghost rest = bytes@.skip(pos as int);
        let mut end: usize = pos;
        while end < len && bytes[end] != LF
            invariant
                len == bytes@.len(),
                pos <= end <= len,
                forall|k: int| pos <= k < end ==> bytes@[k] != LF,
            decreases len - end,
        {
            end = end + 1;
        }
        let terminated: bool = end < len;
        let next: usize = if terminated { end + 1 } else { end };
        let mut stop: usize = end;
        if terminated && stop > pos && bytes[stop - 1] == CR {
            stop = stop - 1;
        }
        let line: Vec<u8> = vstd::slice::slice_to_vec(vstd::slice::slice_subrange(bytes, pos, stop));
        proof {
            assert forall|k: int| 0 <= k < end - pos implies rest[k] != LF by {
                assert(rest[k] == bytes@[pos + k]);
            }
            lemma_segment_len_scan(rest, end - pos);
            let n = segment_len(rest);
            assert(n == next - pos);
            let seg = rest.take(n as int);
            assert(rest.skip(n as int) =~= bytes@.skip(next as int));
            assert(segments(rest) == seq![seg] + segments(bytes@.skip(next as int)));
            assert(line_text(seg) =~= line@) by {
                if terminated {
                    assert(seg.last() == LF);
                    let body = seg.drop_last();
                    assert(body =~= bytes@.subrange(pos as int, end as int));
                    if body.len() > 0 && body.last() == CR {
                        assert(body.drop_last() =~= bytes@.subrange(pos as int, stop as int));
                    }
                } else {
                    assert(seg =~= bytes@.subrange(pos as int, end as int));
                    assert(end > pos);
                    assert(seg.last() == bytes@[end - 1]);
                }
            }
            assert(byte_lines(rest) =~= seq![line@] + byte_lines(bytes@.skip(next as int)));
        }
        out.push(line);
        pos = next;
    }
    proof {
        assert(bytes@.skip(pos as int).len() == 0);
        assert(byte_lines(bytes@.skip(pos as int)) =~= Seq::<Seq<u8>>::empty());
    }
    out
}

/// Decodes bytes as UTF-8 with `String::from_utf8`: the string that the bytes
/// encode where they are valid UTF-8, and nothing otherwise.
#[verifier::external_body]
fn utf8_to_string(bytes: Vec<u8>) -> (res: Option<String>)
    ensures
        res is Some <==> valid_utf8(bytes@),
        res is Some ==> res.unwrap()@ == decode_utf8(bytes@),
{
    String::from_utf8(bytes).ok()
}

/// Turns lines of bytes into strings, leaving out those that are not valid
/// UTF-8 and keeping the order of the others.
pub fn decode_lines(raw: Vec<Vec<u8>>) -> (out: Vec<String>)
    ensures
        texts_of(out@) == decoded(bytes_of(raw@)),
{
    let ghost all = bytes_of(raw@);
    let mut out: Vec<String> = Vec::new();
    let mut raw = raw;
    let mut i: usize = 0;
    let n: usize = raw.len();
    proof {
        assert(all.take(0) =~= Seq::<Seq<u8>>::empty());
    }
    while i < n
        invariant
            n == raw@.len(),
            n == all.len(),
            i <= n,
            forall|k: int| i <= k < n ==> raw@[k]@ == all[k],
            texts_of(out@) =~= decoded(all.take(i as int)),
        decreases n - i,
    {
        let mut line: Vec<u8> = Vec::new();
        std::mem::swap(&mut line, &mut raw[i]);
        let text = utf8_to_string(line);
        proof {
            let upto = all.take(i + 1);
            assert(upto.drop_last() =~= all.take(i as int));
            assert(upto.last() == all[i as int]);
        }
        if let Some(t) = text {
            out.push(t);
        }
        i = i + 1;
    }
    proof {
        assert(all.take(n as int) =~= all);
    }
    out
}

/// The lines of text in `bytes`, in the order in which they stand there.
pub fn collect_lines(bytes: &[u8]) -> (out: Vec<String>)
    ensures
        texts_of(out@) == text_lines(bytes@),
{
    decode_lines(split_lines(bytes))
}

} // verus!
