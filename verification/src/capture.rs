//! The capture of notifications from the reads of the output of the stdio server.

use crate::child::{
    arrived, delivered, deliveries, filled, front, law_output_is_delivered_in_order, remaining,
    rest, ReadCall,
};
use crate::notifications::{
    arriving, captured_notifications, clean_line, is_notification,
    law_clean_lines_arrive_unchanged, law_lines_are_relayed, lemma_encode_concat,
    lemma_lines_of_concat, lemma_notifications_concat, notification, notifications_among,
    relayed_bytes, unbroken,
};
use crate::process::forwarded;
use crate::text::{
    law_text_is_shown, lemma_line_len, line_len, lines_of, shown_text, text_of, views,
    without_return,
};
use vstd::prelude::*;
use vstd::utf8::*;

verus! {

/// The number of bytes up to and with the last line feed.
pub open spec fn complete_len(bytes: Seq<u8>) -> nat
    decreases bytes.len(),
{
    if bytes.len() == 0 {
        0
    } else if bytes.last() == 10 {
        bytes.len()
    } else {
        complete_len(bytes.drop_last())
    }
}

/// The complete lines among some bytes: all up to and with the last line feed.
pub open spec fn complete_part(bytes: Seq<u8>) -> Seq<u8> {
    bytes.take(complete_len(bytes) as int)
}

/// The line without an ending that some bytes end in: all behind the last line feed.
pub open spec fn open_part(bytes: Seq<u8>) -> Seq<u8> {
    bytes.skip(complete_len(bytes) as int)
}

/// Whether a line without an ending is a notification already.
pub open spec fn speaks(bytes: Seq<u8>) -> bool {
    bytes.len() > 0 && notification(shown_text(bytes))
}

/// The notifications that some bytes give: those among the complete lines, and the line without an
/// ending if it is one.
pub open spec fn captured_from(bytes: Seq<u8>) -> Seq<Seq<char>> {
    notifications_among(lines_of(shown_text(complete_part(bytes)))) + if speaks(
        open_part(bytes),
    ) {
        seq![shown_text(open_part(bytes))]
    } else {
        seq![]
    }
}

/// The bytes that are kept for the next read: the line without an ending, unless it was captured.
pub open spec fn held_back(bytes: Seq<u8>) -> Seq<u8> {
    if speaks(open_part(bytes)) {
        seq![]
    } else {
        open_part(bytes)
    }
}

/// Whether some bytes hold no line feed.
pub open spec fn one_line(bytes: Seq<u8>) -> bool {
    forall|i: int| 0 <= i < bytes.len() ==> #[trigger] bytes[i] != 10
}

proof fn lemma_complete_len(bytes: Seq<u8>)
    ensures
        complete_len(bytes) <= bytes.len(),
        complete_len(bytes) > 0 ==> bytes[complete_len(bytes) - 1] == 10,
        one_line(open_part(bytes)),
    decreases bytes.len(),
{
    if bytes.len() > 0 && bytes.last() != 10 {
        let front = bytes.drop_last();
        lemma_complete_len(front);
        assert forall|i: int| 0 <= i < open_part(bytes).len() implies #[trigger] open_part(
            bytes,
        )[i] != 10 by {
            if i < open_part(bytes).len() - 1 {
                assert(open_part(front)[i] == open_part(bytes)[i]);
            }
        }
    }
}

proof fn lemma_complete_len_is(bytes: Seq<u8>, n: int)
    requires
        0 <= n <= bytes.len(),
        n > 0 ==> bytes[n - 1] == 10,
        forall|i: int| n <= i < bytes.len() ==> #[trigger] bytes[i] != 10,
    ensures
        complete_len(bytes) == n,
{
    lemma_complete_len(bytes);
    let m = complete_len(bytes) as int;
    if m < n {
        assert(open_part(bytes)[n - 1 - m] == bytes[n - 1]);
    }
}

/// A byte of ASCII stands for its character alone, and is no part of another.
proof fn lemma_scalar_lacks(v: u32, b: u8)
    requires
        is_scalar(v),
        b < 128,
        v != b,
    ensures
        forall|i: int|
            0 <= i < encode_scalar(v).len() ==> #[trigger] encode_scalar(v)[i] != b,
        encode_scalar(v).len() > 0,
{
    if has_width_1_encoding(v) {
        assert(leading_byte_width_1(v) != b) by (bit_vector)
            requires
                has_width_1_encoding(v),
                v != b,
        ;
    } else {
        assert(leading_byte_width_2(v) >= 128) by (bit_vector);
        assert(leading_byte_width_3(v) >= 128) by (bit_vector);
        assert(leading_byte_width_4(v) >= 128) by (bit_vector);
        assert(last_continuation_byte(v) >= 128) by (bit_vector);
        assert(second_last_continuation_byte(v) >= 128) by (bit_vector);
        assert(third_last_continuation_byte(v) >= 128) by (bit_vector);
    }
}

proof fn lemma_line_has_no_line_feed(line: Seq<char>)
    requires
        unbroken(line),
    ensures
        one_line(encode_utf8(line)),
    decreases line.len(),
{
    if line.len() > 0 {
        let rest = line.drop_first();
        assert forall|i: int| 0 <= i < rest.len() implies #[trigger] rest[i] != '\n' by {
            assert(rest[i] == line[i + 1]);
        }
        lemma_line_has_no_line_feed(rest);
        char_is_scalar(line[0]);
        let v: u32 = line[0] as u32;
        char_u32_cast(line[0], v);
        assert(line[0] != '\n');
        assert(10u32 as char == '\n');
        lemma_scalar_lacks(v, 10);
        let head = encode_scalar(v);
        let tail = encode_utf8(rest);
        assert(encode_utf8(line) == head + tail);
        assert forall|i: int| 0 <= i < (head + tail).len() implies #[trigger] (head + tail)[i]
            != 10 by {
            if i >= head.len() {
                assert((head + tail)[i] == tail[i - head.len()]);
            } else {
                assert((head + tail)[i] == head[i]);
            }
        }
    }
}

/// What passes on for a line is the line and a line feed.
proof fn lemma_forwarded(line: Seq<char>)
    ensures
        forwarded(line) == encode_utf8(line) + seq![10u8],
{
    let end = seq!['\n'];
    lemma_encode_concat(line, end);
    is_ascii_chars_encode_utf8(end);
    assert(end[0] as u8 == 10);
    assert(encode_utf8(end) == seq![10u8]);
    assert(line.push('\n') == line + end);
}

/// The bytes of a text end in a carriage return exactly where the text does.
proof fn lemma_carriage_return(line: Seq<char>)
    requires
        line.len() > 0,
    ensures
        encode_utf8(line).len() > 0,
        encode_utf8(line).last() == 13 <==> line.last() == '\r',
        line.last() == '\r' ==> encode_utf8(line) == encode_utf8(line.drop_last()) + seq![13u8],
{
    let end = seq![line.last()];
    assert(line == line.drop_last() + end);
    lemma_encode_concat(line.drop_last(), end);
    assert(end.drop_first() == Seq::<char>::empty());
    assert(encode_utf8(end.drop_first()) == Seq::<u8>::empty());
    let v: u32 = line.last() as u32;
    char_is_scalar(line.last());
    char_u32_cast(line.last(), v);
    assert(encode_utf8(end) == encode_scalar(v));
    if line.last() == '\r' {
        is_ascii_chars_encode_utf8(end);
        assert(end[0] as u8 == 13);
        assert(encode_utf8(end) == seq![13u8]);
    } else {
        assert(13u32 as char == '\r');
        lemma_scalar_lacks(v, 13);
        let last = encode_scalar(v);
        assert(encode_utf8(line).last() == last[last.len() - 1]);
    }
}

/// The number of bytes up to and with the last line feed.
fn complete_length(bytes: &Vec<u8>) -> (r: usize)
    ensures
        r == complete_len(bytes@),
        r <= bytes@.len(),
{
    let mut n: usize = bytes.len();
    while n > 0 && bytes[n - 1] != 10
        invariant
            n <= bytes@.len(),
            forall|i: int| n <= i < bytes@.len() ==> #[trigger] bytes@[i] != 10,
        decreases n,
    {
        n = n - 1;
    }
    proof {
        lemma_complete_len_is(bytes@, n as int);
    }
    n
}

/// Picks the notifications from the output of the stdio server as it is read, piece by piece.
pub struct NotificationCapture {
    pending: Vec<u8>,
}

impl NotificationCapture {
    /// The bytes of a line that was begun and not captured yet.
    pub closed spec fn pending(&self) -> Seq<u8> {
        self.pending@
    }

    /// A capture that has seen nothing.
    pub fn new() -> (r: Self)
        ensures
            r.pending() == Seq::<u8>::empty(),
    {
        NotificationCapture { pending: Vec::new() }
    }

    /// Takes the bytes that a read brought and returns the notifications that are complete with
    /// them. A line that goes on in a later read is kept until then.
    pub fn feed(&mut self, data: &[u8]) -> (r: Vec<String>)
        ensures
            views(r@) == captured_from(old(self).pending() + data@),
            final(self).pending() == held_back(old(self).pending() + data@),
            valid_utf8(old(self).pending() + data@) ==> views(r@) == notifications_among(
                lines_of(decode_utf8(old(self).pending() + data@)),
            ),
    {
        let ghost before = self.pending@;
        let mut all: Vec<u8> = Vec::new();
        std::mem::swap(&mut all, &mut self.pending);
        let mut i: usize = 0;
        while i < data.len()
            invariant
                i <= data@.len(),
                all@ == before + data@.take(i as int),
                self.pending@ == Seq::<u8>::empty(),
            decreases data@.len() - i,
        {
            all.push(data[i]);
            i = i + 1;
        }
        assert(data@.take(i as int) == data@);
        let ghost whole = all@;
        proof {
            if valid_utf8(whole) {
                law_capture_of_whole_text(whole);
            }
        }
        let n = complete_length(&all);
        let open = all.split_off(n);
        assert(all@ == complete_part(whole));
        assert(open@ == open_part(whole));
        let mut r = captured_notifications(all.as_slice());
        let ghost complete = views(r@);
        if open.len() > 0 {
            let text = text_of(open.as_slice());
            if is_notification(text.as_str()) {
                r.push(text);
                assert(views(r@) == complete + seq![text@]);
                return r;
            }
        }
        assert(complete + Seq::<Seq<char>>::empty() == complete);
        self.pending = open;
        r
    }
}

/// The place behind the last line feed of a text.
proof fn last_line(s: Seq<char>) -> (n: int)
    ensures
        0 <= n <= s.len(),
        n > 0 ==> s[n - 1] == '\n',
        forall|i: int| n <= i < s.len() ==> #[trigger] s[i] != '\n',
    decreases s.len(),
{
    if s.len() == 0 || s.last() == '\n' {
        s.len() as int
    } else {
        let n = last_line(s.drop_last());
        assert forall|i: int| n <= i < s.len() implies #[trigger] s[i] != '\n' by {
            if i < s.len() - 1 {
                assert(s.drop_last()[i] == s[i]);
            }
        }
        n
    }
}

/// Bytes that are the text of some lines give the notifications among those lines, whether or not
/// the last of them has its ending.
pub proof fn law_capture_of_whole_text(bytes: Seq<u8>)
    requires
        valid_utf8(bytes),
    ensures
        captured_from(bytes) == notifications_among(lines_of(decode_utf8(bytes))),
{
    let s = decode_utf8(bytes);
    decode_utf8_encode_utf8(bytes);
    let n = last_line(s);
    let a = s.take(n);
    let b = s.skip(n);
    assert(a + b == s);
    lemma_encode_concat(a, b);
    let ea = encode_utf8(a);
    let eb = encode_utf8(b);
    assert forall|i: int| 0 <= i < b.len() implies #[trigger] b[i] != '\n' by {
        assert(b[i] == s[n + i]);
    }
    lemma_line_has_no_line_feed(b);
    if n > 0 {
        assert(a == a.drop_last().push('\n'));
        lemma_forwarded(a.drop_last());
    }
    assert forall|i: int| ea.len() <= i < bytes.len() implies #[trigger] bytes[i] != 10 by {
        assert(bytes[i] == eb[i - ea.len()]);
    }
    lemma_complete_len_is(bytes, ea.len() as int);
    assert(complete_part(bytes) == ea);
    assert(open_part(bytes) == eb);
    encode_utf8_valid_utf8(a);
    encode_utf8_decode_utf8(a);
    encode_utf8_valid_utf8(b);
    encode_utf8_decode_utf8(b);
    lemma_lines_of_concat(a, b);
    lemma_notifications_concat(lines_of(a), lines_of(b));
    lemma_line_len(b);
    lemma_encoding_is_empty(b);
    if b.len() > 0 {
        assert(lines_of(b) == seq![b]);
        lemma_notification_alone(b);
    } else {
        reveal(Seq::filter);
    }
}

proof fn lemma_encoding_is_empty(s: Seq<char>)
    ensures
        encode_utf8(s).len() == 0 <==> s.len() == 0,
{
}

/// What is captured over a series of reads, from a line that was begun before them.
pub open spec fn captured_over(pending: Seq<u8>, reads: Seq<Seq<u8>>) -> Seq<Seq<char>>
    decreases reads.len(),
{
    if reads.len() == 0 {
        seq![]
    } else {
        captured_from(pending + reads[0]) + captured_over(
            held_back(pending + reads[0]),
            reads.skip(1),
        )
    }
}

/// Whether a line that is begun has come as far as its reader will see it: only its ending is to
/// follow.
pub open spec fn ends_here(begun: Seq<u8>, following: Seq<u8>) -> bool {
    ||| following.len() > 0 && following[0] == 10 && begun.last() != 13
    ||| following.len() > 1 && following[0] == 13 && following[1] == 10
}

/// Whether a cut leaves a notification that is shorter than its line. An empty line would be
/// shorter than any other, if it were a notification.
pub open spec fn cut_early(begun: Seq<u8>, following: Seq<u8>) -> bool {
    speaks(begun) && (!ends_here(begun, following) || notification(seq![]))
}

/// Whether none of the cuts between some reads leaves a notification that is shorter than its
/// line.
pub open spec fn none_cut_early(pending: Seq<u8>, reads: Seq<Seq<u8>>) -> bool
    decreases reads.len(),
{
    reads.len() == 0 || {
        let bytes = pending + reads[0];
        &&& !cut_early(open_part(bytes), reads.skip(1).flatten())
        &&& none_cut_early(held_back(bytes), reads.skip(1))
    }
}

/// Whether the beginning of a line is a notification before the line is complete.
pub open spec fn speaks_early(line: Seq<char>) -> bool {
    exists|k: int|
        0 <= k < encode_utf8(line).len() && notification(
            shown_text(#[trigger] encode_utf8(line).take(k)),
        )
}

/// Bytes up to somewhere in the text of some lines hold the first few of the lines and the
/// beginning of the next.
proof fn lemma_cut(list: Seq<Seq<char>>, bytes: Seq<u8>, tail: Seq<u8>) -> (m: int)
    requires
        forall|i: int| 0 <= i < list.len() ==> unbroken(#[trigger] list[i]),
        bytes + tail == relayed_bytes(list),
    ensures
        0 <= m <= list.len(),
        complete_part(bytes) == relayed_bytes(list.take(m)),
        open_part(bytes) + tail == relayed_bytes(list.skip(m)),
    decreases list.len(),
{
    let whole = relayed_bytes(list);
    let line = encode_utf8(list[0]);
    let first = forwarded(list[0]);
    lemma_forwarded(list[0]);
    if list.len() > 0 {
        assert(unbroken(list[0]));
        lemma_line_has_no_line_feed(list[0]);
    }
    if list.len() == 0 {
        assert(bytes.len() + tail.len() == 0);
        assert(list.take(0).len() == 0);
        assert(list.skip(0) == list);
        assert(complete_part(bytes) == Seq::<u8>::empty());
        assert(open_part(bytes) == Seq::<u8>::empty());
        0
    } else if bytes.len() < first.len() {
        assert forall|i: int| 0 <= i < bytes.len() implies #[trigger] bytes[i] != 10 by {
            assert(bytes[i] == whole[i]);
            assert(whole[i] == line[i]);
        }
        lemma_complete_len_is(bytes, 0);
        assert(complete_part(bytes) == Seq::<u8>::empty());
        assert(open_part(bytes) == bytes);
        assert(list.take(0).len() == 0);
        assert(list.skip(0) == list);
        0
    } else {
        let later = bytes.skip(first.len() as int);
        let rest = list.skip(1);
        assert(bytes == first + later) by {
            assert forall|i: int| 0 <= i < first.len() implies #[trigger] bytes[i] == first[i] by {
                assert(bytes[i] == whole[i]);
            }
        }
        assert(later + tail == whole.skip(first.len() as int));
        assert(later + tail == relayed_bytes(rest));
        assert forall|i: int| 0 <= i < rest.len() implies unbroken(#[trigger] rest[i]) by {
            assert(rest[i] == list[i + 1]);
        }
        let m = lemma_cut(rest, later, tail);
        lemma_complete_len(later);
        let n = complete_len(later) as int;
        assert forall|i: int| first.len() + n <= i < bytes.len() implies #[trigger] bytes[i]
            != 10 by {
            assert(bytes[i] == open_part(later)[i - first.len() - n]);
        }
        assert(first.last() == 10);
        lemma_complete_len_is(bytes, first.len() + n);
        assert(complete_part(bytes) == first + complete_part(later));
        assert(open_part(bytes) == open_part(later));
        assert(list.take(m + 1).skip(1) == rest.take(m));
        assert(list.skip(m + 1) == rest.skip(m));
        m + 1
    }
}

proof fn lemma_relayed_has_line_feed(list: Seq<Seq<char>>)
    requires
        list.len() > 0,
    ensures
        !one_line(relayed_bytes(list)),
{
    lemma_forwarded(list[0]);
    let first = forwarded(list[0]);
    assert(relayed_bytes(list)[first.len() - 1] == 10);
}

/// A line that is begun holds the first bytes of the line.
proof fn lemma_begun_line(list: Seq<Seq<char>>, begun: Seq<u8>, tail: Seq<u8>)
    requires
        list.len() > 0,
        begun + tail == relayed_bytes(list),
        one_line(begun),
    ensures
        ({
            let line = encode_utf8(list[0]);
            &&& begun.len() <= line.len()
            &&& begun == line.take(begun.len() as int)
            &&& tail == line.skip(begun.len() as int) + (seq![10u8] + relayed_bytes(list.skip(1)))
        }),
{
    let line = encode_utf8(list[0]);
    let whole = relayed_bytes(list);
    let after = relayed_bytes(list.skip(1));
    lemma_forwarded(list[0]);
    assert(whole == line + (seq![10u8] + after));
    assert(begun.len() <= line.len()) by {
        if begun.len() > line.len() {
            assert(begun[line.len() as int] == whole[line.len() as int]);
        }
    }
    assert(begun == line.take(begun.len() as int)) by {
        assert forall|i: int| 0 <= i < begun.len() implies #[trigger] begun[i] == line[i] by {
            assert(begun[i] == whole[i]);
        }
    }
    assert(tail == whole.skip(begun.len() as int));
}

/// A line that has come as far as its reader will see it is shown as the reader will see it. What
/// is left is its ending.
proof fn lemma_ended_line(list: Seq<Seq<char>>, begun: Seq<u8>, tail: Seq<u8>) -> (left: Seq<char>)
    requires
        list.len() > 0,
        unbroken(list[0]),
        begun + tail == relayed_bytes(list),
        one_line(begun),
        begun.len() > 0,
        ends_here(begun, tail),
    ensures
        shown_text(begun) == without_return(list[0]),
        unbroken(left),
        without_return(left) == Seq::<char>::empty(),
        tail == relayed_bytes(seq![left] + list.skip(1)),
{
    let line = encode_utf8(list[0]);
    let after = relayed_bytes(list.skip(1));
    lemma_begun_line(list, begun, tail);
    lemma_line_has_no_line_feed(list[0]);
    lemma_encoding_is_empty(list[0]);
    lemma_carriage_return(list[0]);
    let none = Seq::<char>::empty();
    if tail[0] == 10 {
        assert(begun.len() == line.len()) by {
            if begun.len() < line.len() {
                assert(tail[0] == line[begun.len() as int]);
            }
        }
        assert(begun == line);
        encode_utf8_valid_utf8(list[0]);
        encode_utf8_decode_utf8(list[0]);
        assert(tail == seq![10u8] + after);
        lemma_forwarded(none);
        assert(encode_utf8(none) + seq![10u8] == seq![10u8]);
        assert((seq![none] + list.skip(1)).skip(1) == list.skip(1));
        none
    } else {
        assert(begun.len() < line.len());
        assert(begun.len() + 1 == line.len()) by {
            if begun.len() + 1 < line.len() {
                assert(tail[1] == line[begun.len() as int + 1]);
            }
        }
        assert(tail[0] == line[begun.len() as int]);
        assert(line.last() == 13);
        let shown = list[0].drop_last();
        assert(begun == encode_utf8(shown));
        encode_utf8_valid_utf8(shown);
        encode_utf8_decode_utf8(shown);
        let left = seq!['\r'];
        lemma_carriage_return(left);
        assert(left.drop_last() == none);
        assert(encode_utf8(none) + seq![13u8] == seq![13u8]);
        lemma_forwarded(left);
        assert((seq![left] + list.skip(1)).skip(1) == list.skip(1));
        assert(tail == (seq![13u8] + seq![10u8]) + after);
        left
    }
}

/// Lines that do not begin with a notification shorter than the line may be cut anywhere.
pub proof fn law_lines_may_be_cut_anywhere(
    pending: Seq<u8>,
    reads: Seq<Seq<u8>>,
    list: Seq<Seq<char>>,
)
    requires
        one_line(pending),
        pending + reads.flatten() == relayed_bytes(list),
        forall|i: int| 0 <= i < list.len() ==> clean_line(#[trigger] list[i]),
        forall|i: int| 0 <= i < list.len() ==> !speaks_early(#[trigger] list[i]),
    ensures
        none_cut_early(pending, reads),
    decreases reads.len(),
{
    if reads.len() > 0 {
        let bytes = pending + reads[0];
        let later = reads.skip(1);
        let tail = later.flatten();
        assert(reads.flatten() == reads[0] + tail);
        assert(bytes + tail == pending + (reads[0] + tail));
        assert forall|i: int| 0 <= i < list.len() implies unbroken(#[trigger] list[i]) by {
            assert(clean_line(list[i]));
        }
        let m = lemma_cut(list, bytes, tail);
        let open = open_part(bytes);
        lemma_complete_len(bytes);
        let next = list.skip(m);
        assert forall|i: int| 0 <= i < next.len() implies clean_line(#[trigger] next[i])
            && !speaks_early(next[i]) by {
            assert(next[i] == list[m + i]);
        }
        if speaks(open) {
            assert(next.len() > 0);
            let line = encode_utf8(next[0]);
            lemma_begun_line(next, open, tail);
            assert(open == line);
            lemma_encoding_is_empty(next[0]);
            assert(clean_line(next[0]) && !speaks_early(next[0]));
            lemma_carriage_return(next[0]);
            assert(ends_here(open, tail));
            let start = line.take(0);
            assert(start == Seq::<u8>::empty());
            assert(decode_utf8(start) == Seq::<char>::empty());
            let following = seq![Seq::<char>::empty()] + next.skip(1);
            lemma_forwarded(Seq::<char>::empty());
            assert(following.skip(1) == next.skip(1));
            assert(tail == relayed_bytes(following));
            assert forall|i: int| 0 <= i < following.len() implies clean_line(
                #[trigger] following[i],
            ) && !speaks_early(following[i]) by {
                if i > 0 {
                    assert(following[i] == next[i]);
                }
            }
            assert(Seq::<u8>::empty() + tail == tail);
            law_lines_may_be_cut_anywhere(seq![], later, following);
        } else {
            law_lines_may_be_cut_anywhere(open, later, next);
        }
    }
}

/// What is captured does not depend on how the output is cut into reads, be it within a line or
/// within a character, unless a cut leaves a notification that is shorter than its line. It is the
/// notifications among the lines that the reads bring, each complete, once, and in their order.
pub proof fn law_capture_over_reads(
    pending: Seq<u8>,
    reads: Seq<Seq<u8>>,
    list: Seq<Seq<char>>,
)
    requires
        one_line(pending),
        pending + reads.flatten() == relayed_bytes(list),
        forall|i: int| 0 <= i < list.len() ==> unbroken(#[trigger] list[i]),
        none_cut_early(pending, reads),
    ensures
        captured_over(pending, reads) == notifications_among(arriving(list)),
    decreases reads.len(),
{
    if reads.len() == 0 {
        assert(pending + reads.flatten() == pending);
        if list.len() > 0 {
            lemma_relayed_has_line_feed(list);
        }
        reveal(Seq::filter);
    } else {
        let bytes = pending + reads[0];
        let later = reads.skip(1);
        let tail = later.flatten();
        assert(reads.flatten() == reads[0] + tail);
        assert(bytes + tail == pending + (reads[0] + tail));
        let m = lemma_cut(list, bytes, tail);
        let open = open_part(bytes);
        lemma_complete_len(bytes);
        let done = list.take(m);
        let next = list.skip(m);
        assert forall|i: int| 0 <= i < done.len() implies unbroken(#[trigger] done[i]) by {
            assert(done[i] == list[i]);
        }
        law_lines_are_relayed(done);
        assert forall|i: int| 0 <= i < next.len() implies unbroken(#[trigger] next[i]) by {
            assert(next[i] == list[m + i]);
        }
        let seen = arriving(done);
        assert(seen + arriving(next) == arriving(list));
        lemma_notifications_concat(seen, arriving(next));
        if speaks(open) {
            assert(next.len() > 0);
            assert(unbroken(next[0]));
            let left = lemma_ended_line(next, open, tail);
            let line = without_return(next[0]);
            let none = Seq::<char>::empty();
            let after = next.skip(1);
            let following = seq![left] + after;
            assert forall|i: int| 0 <= i < following.len() implies unbroken(
                #[trigger] following[i],
            ) by {
                if i > 0 {
                    assert(following[i] == next[i]);
                }
            }
            assert(Seq::<u8>::empty() + tail == tail);
            law_capture_over_reads(seq![], later, following);
            let rest = arriving(after);
            assert(arriving(following) == seq![none] + rest);
            assert(arriving(next) == seq![line] + rest);
            lemma_notifications_concat(seq![line], rest);
            lemma_notifications_concat(seq![none], rest);
            lemma_notification_alone(line);
            lemma_notification_alone(none);
            assert(Seq::<Seq<char>>::empty() + notifications_among(rest) == notifications_among(
                rest,
            ));
            assert((notifications_among(seen) + seq![line]) + notifications_among(rest)
                == notifications_among(seen) + (seq![line] + notifications_among(rest)));
        } else {
            law_capture_over_reads(open, later, next);
            assert(notifications_among(seen) + Seq::<Seq<char>>::empty() == notifications_among(
                seen,
            ));
        }
    }
}

proof fn lemma_notification_alone(line: Seq<char>)
    ensures
        notifications_among(seq![line]) == if notification(line) {
            seq![line]
        } else {
            seq![]
        },
{
    reveal(Seq::filter);
    reveal_with_fuel(Seq::filter, 2);
    assert(seq![line].drop_last() == Seq::<Seq<char>>::empty());
}

proof fn lemma_deliveries(buffer: Seq<u8>, calls: Seq<ReadCall>)
    ensures
        deliveries(buffer, calls).flatten() == delivered(buffer, calls),
    decreases calls.len(),
{
    if calls.len() > 0 {
        let full = filled(buffer, calls[0]);
        let taken = front(full, calls[0].available);
        let left = rest(full, calls[0].available);
        lemma_deliveries(left, calls.skip(1));
        let all = deliveries(buffer, calls);
        assert(all.drop_first() == deliveries(left, calls.skip(1)));
        assert(all.first() == taken);
    }
}

/// From the output of the stdio server to the listeners: once all that arrived was read, exactly
/// the notifications among the lines that were written were captured, each complete, once, and in
/// their order, whatever the sizes of the chunks and of the reads, unless a read ends where what
/// has come of a line is a notification that is shorter than the line.
pub proof fn law_notifications_reach_listeners(list: Seq<Seq<char>>, calls: Seq<ReadCall>)
    requires
        forall|i: int| 0 <= i < list.len() ==> unbroken(#[trigger] list[i]),
        none_cut_early(seq![], deliveries(seq![], calls)),
        arrived(seq![], calls) == relayed_bytes(list),
        remaining(seq![], calls) == Seq::<u8>::empty(),
    ensures
        captured_over(seq![], deliveries(seq![], calls)) == notifications_among(arriving(list)),
{
    let nothing: Seq<u8> = seq![];
    lemma_all_is_delivered(list, calls);
    law_capture_over_reads(nothing, deliveries(nothing, calls), list);
}

/// The notifications among lines that neither begin with a shorter notification nor end in a
/// carriage return reach the listeners unchanged, whatever the sizes of the chunks and of the
/// reads.
pub proof fn law_plain_notifications_reach_listeners(list: Seq<Seq<char>>, calls: Seq<ReadCall>)
    requires
        forall|i: int| 0 <= i < list.len() ==> clean_line(#[trigger] list[i]),
        forall|i: int| 0 <= i < list.len() ==> !speaks_early(#[trigger] list[i]),
        arrived(seq![], calls) == relayed_bytes(list),
        remaining(seq![], calls) == Seq::<u8>::empty(),
    ensures
        captured_over(seq![], deliveries(seq![], calls)) == notifications_among(list),
{
    let nothing: Seq<u8> = seq![];
    lemma_all_is_delivered(list, calls);
    law_lines_may_be_cut_anywhere(nothing, deliveries(nothing, calls), list);
    assert forall|i: int| 0 <= i < list.len() implies unbroken(#[trigger] list[i]) by {
        assert(clean_line(list[i]));
    }
    law_notifications_reach_listeners(list, calls);
    law_clean_lines_arrive_unchanged(list);
}

proof fn lemma_all_is_delivered(list: Seq<Seq<char>>, calls: Seq<ReadCall>)
    requires
        arrived(seq![], calls) == relayed_bytes(list),
        remaining(seq![], calls) == Seq::<u8>::empty(),
    ensures
        Seq::<u8>::empty() + deliveries(seq![], calls).flatten() == relayed_bytes(list),
{
    let nothing: Seq<u8> = seq![];
    lemma_deliveries(nothing, calls);
    law_output_is_delivered_in_order(nothing, calls);
    assert(delivered(nothing, calls) + nothing == delivered(nothing, calls));
    assert(nothing + arrived(nothing, calls) == arrived(nothing, calls));
    assert(nothing + delivered(nothing, calls) == delivered(nothing, calls));
}

/// A line without an ending is captured at once exactly where it is a notification, and kept for
/// the reads to come otherwise, whole.
pub proof fn law_capture_of_a_begun_line(bytes: Seq<u8>)
    requires
        forall|i: int| 0 <= i < bytes.len() ==> #[trigger] bytes[i] != 10,
    ensures
        bytes.len() > 0 && notification(shown_text(bytes)) ==> captured_from(bytes) == seq![
            shown_text(bytes),
        ] && held_back(bytes) == Seq::<u8>::empty(),
        bytes.len() == 0 || !notification(shown_text(bytes)) ==> captured_from(bytes) == Seq::<
            Seq<char>,
        >::empty() && held_back(bytes) == bytes,
{
    lemma_complete_len_is(bytes, 0);
    assert(complete_part(bytes) == Seq::<u8>::empty());
    assert(open_part(bytes) == bytes);
    law_text_is_shown(seq![]);
    assert(encode_utf8(seq![]) == Seq::<u8>::empty());
    assert(lines_of(seq![]) == Seq::<Seq<char>>::empty());
    reveal(Seq::filter);
}

/// Complete lines give their notifications, whatever is begun behind them, and nothing of them is
/// kept.
pub proof fn law_capture_of_complete_lines(lines: Seq<u8>, begun: Seq<u8>)
    requires
        forall|i: int| 0 <= i < begun.len() ==> #[trigger] begun[i] != 10,
    ensures
        captured_from(lines + seq![10u8] + begun) == notifications_among(
            lines_of(shown_text(lines + seq![10u8])),
        ) + captured_from(begun),
        held_back(lines + seq![10u8] + begun) == held_back(begun),
{
    let complete = lines + seq![10u8];
    let bytes = complete + begun;
    assert forall|i: int| complete.len() <= i < bytes.len() implies #[trigger] bytes[i] != 10 by {
        assert(bytes[i] == begun[i - complete.len()]);
    }
    assert(bytes[complete.len() - 1] == 10);
    lemma_complete_len_is(bytes, complete.len() as int);
    assert(complete_part(bytes) == complete);
    assert(open_part(bytes) == begun);
    lemma_complete_len_is(begun, 0);
    assert(open_part(begun) == begun);
    law_capture_of_a_begun_line(begun);
}

/// A line that is begun in one read and is no notification yet is captured with the next read as if
/// both were one.
pub proof fn law_two_reads_capture_what_one_does(first: Seq<u8>, second: Seq<u8>)
    requires
        forall|i: int| 0 <= i < first.len() ==> #[trigger] first[i] != 10,
        !(first.len() > 0 && notification(shown_text(first))),
    ensures
        captured_from(first) == Seq::<Seq<char>>::empty(),
        captured_from(held_back(first) + second) == captured_from(first + second),
        held_back(held_back(first) + second) == held_back(first + second),
{
    law_capture_of_a_begun_line(first);
}

} // verus!
