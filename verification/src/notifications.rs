//! The notifications among the messages of the stdio server, which go out to every listener.

use crate::child::{
    arrived, delivered, law_output_is_delivered_in_order, remaining, ReadCall,
};
use crate::json::{parsed_texts, read_text, text_under};
use crate::process::{forwarded, law_line_passes_on};
use crate::text::{
    begins_with, law_begins_with, lemma_line_len, line_len, lines, lines_of, shown_text, starts_with, text_of, views,
    without_return,
};
use vstd::prelude::*;
use vstd::utf8::*;

verus! {

/// Whether a message with this method is a notification. A message without a method is none.
pub open spec fn notification_method(method: Option<Seq<char>>) -> bool {
    match method {
        Some(method) => begins_with(method, "notifications/"@),
        None => false,
    }
}

/// Whether a line is a notification: a JSON object whose method says so.
pub open spec fn notification(line: Seq<char>) -> bool {
    notification_method(text_under(line, "method"@))
}

/// The notifications among some lines, in their order.
pub open spec fn notifications_among(list: Seq<Seq<char>>) -> Seq<Seq<char>> {
    list.filter(|line: Seq<char>| notification(line))
}

/// Whether a message with this method is a notification.
pub fn is_notification_method(method: Option<&str>) -> (r: bool)
    ensures
        r == notification_method(
            match method {
                Some(method) => Some(method@),
                None => None,
            },
        ),
{
    match method {
        Some(method) => starts_with(method, "notifications/"),
        None => false,
    }
}

/// Whether a line is a notification.
pub fn is_notification(line: &str) -> (r: bool)
    ensures
        r == notification(line@),
{
    let method = read_text(line, "method");
    match &method {
        Some(method) => is_notification_method(Some(method.as_str())),
        None => is_notification_method(None),
    }
}

/// The notifications among the lines of a text, in their order.
pub fn notifications_in(text: &str) -> (r: Vec<String>)
    ensures
        views(r@) == notifications_among(lines_of(text@)),
{
    let all = lines(text);
    let ghost listed = views(all@);
    let mut r: Vec<String> = Vec::new();
    let mut i: usize = 0;
    proof {
        reveal(Seq::filter);
        assert(views(r@) == notifications_among(listed.take(0)));
    }
    while i < all.len()
        invariant
            i <= all@.len(),
            listed == views(all@),
            views(r@) == notifications_among(listed.take(i as int)),
        decreases all@.len() - i,
    {
        let ghost before = r@;
        if is_notification(all[i].as_str()) {
            r.push(all[i].clone());
            assert(views(r@) == views(before).push(all@[i as int]@));
        }
        proof {
            reveal(Seq::filter);
            assert(listed.take(i + 1).drop_last() == listed.take(i as int));
            assert(listed.take(i + 1).last() == all@[i as int]@);
        }
        i = i + 1;
    }
    assert(listed.take(i as int) == listed);
    r
}

/// The notifications among the lines of some bytes of output, in their order.
pub fn captured_notifications(data: &[u8]) -> (r: Vec<String>)
    ensures
        views(r@) == notifications_among(lines_of(shown_text(data@))),
{
    let text = text_of(data);
    notifications_in(text.as_str())
}

/// A text that is complete up to a line feed leaves the lines behind it alone.
pub proof fn lemma_lines_of_concat(a: Seq<char>, b: Seq<char>)
    requires
        a.len() > 0 ==> a.last() == '\n',
    ensures
        lines_of(a + b) == lines_of(a) + lines_of(b),
    decreases a.len(),
{
    if a.len() == 0 {
        assert(a + b == b);
        assert(lines_of(a) + lines_of(b) == lines_of(b));
    } else {
        lemma_line_len(a);
        let n = line_len(a) as int;
        assert(n < a.len()) by {
            if n == a.len() {
                assert(a[n - 1] != '\n');
            }
        }
        lemma_line_len_prefix(a, b);
        assert((a + b).take(n) == a.take(n));
        assert((a + b).skip(n + 1) == a.skip(n + 1) + b);
        if a.skip(n + 1).len() > 0 {
            assert(a.skip(n + 1).last() == a.last());
        }
        lemma_lines_of_concat(a.skip(n + 1), b);
        assert((seq![without_return(a.take(n))] + lines_of(a.skip(n + 1))) + lines_of(b) == seq![
            without_return(a.take(n)),
        ] + (lines_of(a.skip(n + 1)) + lines_of(b)));
    }
}

proof fn lemma_line_len_prefix(a: Seq<char>, b: Seq<char>)
    requires
        line_len(a) < a.len(),
    ensures
        line_len(a + b) == line_len(a),
    decreases a.len(),
{
    if a[0] != '\n' {
        assert((a + b).skip(1) == a.skip(1) + b);
        lemma_line_len_prefix(a.skip(1), b);
    }
}

/// Whether a line of output is a single line: it has no line feed.
pub open spec fn unbroken(line: Seq<char>) -> bool {
    forall|i: int| 0 <= i < line.len() ==> #[trigger] line[i] != '\n'
}

/// Whether a line of output is a single line that does not end in a carriage return, which would
/// count as a part of its ending.
pub open spec fn clean_line(line: Seq<char>) -> bool {
    &&& unbroken(line)
    &&& line.len() > 0 ==> line.last() != '\r'
}

/// Some lines of output as their reader sees them: a carriage return at the end of a line is taken
/// for a part of its ending.
pub open spec fn arriving(list: Seq<Seq<char>>) -> Seq<Seq<char>> {
    Seq::new(list.len(), |i: int| without_return(list[i]))
}

proof fn lemma_one_line(line: Seq<char>)
    requires
        unbroken(line),
    ensures
        lines_of(line.push('\n')) == seq![without_return(line)],
{
    let whole = line.push('\n');
    lemma_line_len(whole);
    let n = line_len(whole) as int;
    assert(n == line.len()) by {
        if n < line.len() {
            assert(whole[n] == line[n]);
        }
        if n == whole.len() {
            assert(whole[n - 1] == '\n');
        }
    }
    assert(whole.take(n) == line);
    assert(whole.skip(n + 1) == Seq::<char>::empty());
    assert(lines_of(whole.skip(n + 1)) == Seq::<Seq<char>>::empty());
    assert(lines_of(whole) == seq![without_return(line)] + Seq::<Seq<char>>::empty());
}

/// The text that reaches the reader for some lines of output.
pub open spec fn relayed_text(list: Seq<Seq<char>>) -> Seq<char>
    decreases list.len(),
{
    if list.len() == 0 {
        seq![]
    } else {
        list[0].push('\n') + relayed_text(list.skip(1))
    }
}

/// The bytes that reach the reader for some lines of output.
pub open spec fn relayed_bytes(list: Seq<Seq<char>>) -> Seq<u8>
    decreases list.len(),
{
    if list.len() == 0 {
        seq![]
    } else {
        forwarded(list[0]) + relayed_bytes(list.skip(1))
    }
}

pub proof fn lemma_encode_concat(a: Seq<char>, b: Seq<char>)
    ensures
        encode_utf8(a + b) == encode_utf8(a) + encode_utf8(b),
    decreases a.len(),
{
    if a.len() == 0 {
        assert(a + b == b);
        assert(encode_utf8(a) + encode_utf8(b) == encode_utf8(b));
    } else {
        assert((a + b).drop_first() == a.drop_first() + b);
        lemma_encode_concat(a.drop_first(), b);
        assert(encode_utf8(a + b) == encode_utf8(a) + encode_utf8(b));
    }
}

proof fn lemma_relayed_bytes(list: Seq<Seq<char>>)
    ensures
        relayed_bytes(list) == encode_utf8(relayed_text(list)),
    decreases list.len(),
{
    if list.len() > 0 {
        lemma_relayed_bytes(list.skip(1));
        lemma_encode_concat(list[0].push('\n'), relayed_text(list.skip(1)));
    }
}

proof fn lemma_relayed_lines(list: Seq<Seq<char>>)
    requires
        forall|i: int| 0 <= i < list.len() ==> unbroken(#[trigger] list[i]),
    ensures
        lines_of(relayed_text(list)) == arriving(list),
    decreases list.len(),
{
    if list.len() > 0 {
        assert forall|i: int| 0 <= i < list.skip(1).len() implies unbroken(
            #[trigger] list.skip(1)[i],
        ) by {
            assert(list.skip(1)[i] == list[i + 1]);
        }
        lemma_relayed_lines(list.skip(1));
        lemma_one_line(list[0]);
        lemma_lines_of_concat(list[0].push('\n'), relayed_text(list.skip(1)));
        assert(seq![without_return(list[0])] + arriving(list.skip(1)) == arriving(list));
    } else {
        assert(lines_of(relayed_text(list)) == arriving(list));
    }
}

/// Lines without a carriage return at the end are seen as they are.
pub proof fn law_clean_lines_arrive_unchanged(list: Seq<Seq<char>>)
    requires
        forall|i: int| 0 <= i < list.len() ==> clean_line(#[trigger] list[i]),
    ensures
        arriving(list) == list,
{
    assert forall|i: int| 0 <= i < list.len() implies #[trigger] arriving(list)[i] == list[i] by {
        assert(clean_line(list[i]));
    }
}

/// The lines that the stdio server writes reach the reader as the same lines, none joined, split
/// or lost, and none changed but for a carriage return at its end.
pub proof fn law_lines_are_relayed(list: Seq<Seq<char>>)
    requires
        forall|i: int| 0 <= i < list.len() ==> unbroken(#[trigger] list[i]),
    ensures
        valid_utf8(relayed_bytes(list)),
        lines_of(decode_utf8(relayed_bytes(list))) == arriving(list),
{
    lemma_relayed_bytes(list);
    encode_utf8_valid_utf8(relayed_text(list));
    encode_utf8_decode_utf8(relayed_text(list));
    lemma_relayed_lines(list);
}

/// The notifications among some lines are all those lines that are notifications, and no others.
pub proof fn law_notifications_are_picked(list: Seq<Seq<char>>)
    ensures
        forall|i: int|
            0 <= i < notifications_among(list).len() ==> notification(
                #[trigger] notifications_among(list)[i],
            ),
        forall|line: Seq<char>|
            list.contains(line) && notification(line) ==> #[trigger] notifications_among(
                list,
            ).contains(line),
        forall|line: Seq<char>| #[trigger]
            notifications_among(list).contains(line) ==> list.contains(line),
{
    let pred = |line: Seq<char>| notification(line);
    broadcast use Seq::lemma_filter_pred, Seq::lemma_filter_contains, Seq::lemma_filter_contains_rev;
    assert forall|i: int| 0 <= i < notifications_among(list).len() implies notification(
        #[trigger] notifications_among(list)[i],
    ) by {
        list.lemma_filter_pred(pred, i);
    }
    assert forall|line: Seq<char>|
        list.contains(line) && notification(line) implies #[trigger] notifications_among(
        list,
    ).contains(line) by {
        let i = choose|i: int| 0 <= i < list.len() && list[i] == line;
        list.lemma_filter_contains(pred, i);
    }
    assert forall|line: Seq<char>| #[trigger]
        notifications_among(list).contains(line) implies list.contains(line) by {
        list.lemma_filter_contains_rev(pred, line);
    }
}

/// From the output of the stdio server to its reader: once all that arrived was read, the reader
/// has the lines that were written, whatever the sizes of the chunks and of the reads.
pub proof fn law_reader_sees_the_lines(list: Seq<Seq<char>>, calls: Seq<ReadCall>)
    requires
        forall|i: int| 0 <= i < list.len() ==> unbroken(#[trigger] list[i]),
        arrived(seq![], calls) == relayed_bytes(list),
        remaining(seq![], calls) == Seq::<u8>::empty(),
    ensures
        lines_of(decode_utf8(delivered(seq![], calls))) == arriving(list),
{
    let nothing: Seq<u8> = seq![];
    law_lines_are_relayed(list);
    law_output_is_delivered_in_order(nothing, calls);
    assert(delivered(nothing, calls) + nothing == delivered(nothing, calls));
    assert(nothing + arrived(nothing, calls) == arrived(nothing, calls));
}

pub proof fn lemma_notifications_concat(a: Seq<Seq<char>>, b: Seq<Seq<char>>)
    ensures
        notifications_among(a + b) == notifications_among(a) + notifications_among(b),
{
    Seq::filter_distributes_over_add(a, b, |line: Seq<char>| notification(line));
}

/// The notifications of two texts are those of the two together, where the first ends with a line.
pub proof fn law_notifications_of_parts(a: Seq<char>, b: Seq<char>)
    requires
        a.len() > 0 ==> a.last() == '\n',
    ensures
        notifications_among(lines_of(a + b)) == notifications_among(lines_of(a))
            + notifications_among(lines_of(b)),
{
    lemma_lines_of_concat(a, b);
    lemma_notifications_concat(lines_of(a), lines_of(b));
}

proof fn lemma_lines_have_no_line_feed(s: Seq<char>, i: int, j: int)
    requires
        0 <= i < lines_of(s).len(),
        0 <= j < lines_of(s)[i].len(),
    ensures
        lines_of(s)[i][j] != '\n',
    decreases s.len(),
{
    lemma_line_len(s);
    let n = line_len(s) as int;
    if n < s.len() {
        if i > 0 {
            lemma_lines_have_no_line_feed(s.skip(n + 1), i - 1, j);
        } else {
            assert(lines_of(s)[0] == without_return(s.take(n)));
            assert(lines_of(s)[0][j] == s[j]);
        }
    }
}

/// A notification among the lines of a text is a single line, so that it is a single event of the
/// stream.
pub proof fn law_notification_is_one_line(s: Seq<char>, i: int, j: int)
    requires
        0 <= i < notifications_among(lines_of(s)).len(),
        0 <= j < notifications_among(lines_of(s))[i].len(),
    ensures
        notifications_among(lines_of(s))[i][j] != '\n',
{
    let line = notifications_among(lines_of(s))[i];
    assert(notifications_among(lines_of(s)).contains(line));
    lines_of(s).lemma_filter_contains_rev(|line: Seq<char>| notification(line), line);
    let k = choose|k: int| 0 <= k < lines_of(s).len() && lines_of(s)[k] == line;
    lemma_lines_have_no_line_feed(s, k, j);
}

/// What passes on for a line is never empty, so that a reader never takes it for the end.
pub proof fn law_forwarded_is_not_empty(line: Seq<char>)
    ensures
        forwarded(line).len() > 0,
{
    assert(line.push('\n').len() > 0);
}

/// A message is a notification exactly where its method is the text `notifications/` with some
/// text behind it, whatever text that is, be it none.
pub proof fn law_methods_of_notifications(method: Seq<char>, behind: Seq<char>)
    ensures
        notification_method(Some("notifications/"@ + behind)),
        notification_method(Some(method)) <==> method.len() >= 14 && method.take(14)
            == "notifications/"@,
        !notification_method(None),
{
    reveal_strlit("notifications/");
    assert("notifications/"@.len() == 14);
    law_begins_with(method, "notifications/"@, behind);
    if method.len() >= 14 {
        assert(method.subrange(0, 14) == method.take(14));
    }
}

/// A line is a notification exactly where it can be read as JSON and has, under `method`, a text
/// that begins with `notifications/`.
pub proof fn law_lines_of_notifications(line: Seq<char>)
    ensures
        notification(line) <==> {
            &&& parsed_texts(line) is Some
            &&& parsed_texts(line)->Some_0.dom().contains("method"@)
            &&& parsed_texts(line)->Some_0["method"@].len() >= 14
            &&& parsed_texts(line)->Some_0["method"@].take(14) == "notifications/"@
        },
{
    if parsed_texts(line) is Some {
        law_methods_of_notifications(parsed_texts(line)->Some_0["method"@], seq![]);
    }
}

/// One line more gives one notification more, behind the others, if it is one, and none otherwise.
pub proof fn law_notifications_are_picked_in_turn(list: Seq<Seq<char>>, line: Seq<char>)
    ensures
        notification(line) ==> notifications_among(list + seq![line]) == notifications_among(list)
            + seq![line],
        !notification(line) ==> notifications_among(list + seq![line]) == notifications_among(list),
        notifications_among(seq![]) == Seq::<Seq<char>>::empty(),
{
    reveal(Seq::filter);
    let more = list + seq![line];
    assert(more.drop_last() == list);
    assert(more.last() == line);
}

/// The reader sees as many lines as were written, each as it was written but for one carriage
/// return at its end.
pub proof fn law_arriving_lines(list: Seq<Seq<char>>, line: Seq<char>)
    ensures
        arriving(list + seq![line]) == arriving(list) + seq![
            if line.len() > 0 && line[line.len() - 1] == '\r' {
                line.take(line.len() - 1)
            } else {
                line
            },
        ],
        arriving(seq![]) == Seq::<Seq<char>>::empty(),
{
    if line.len() > 0 {
        assert(line.take(line.len() - 1) == line.drop_last());
    }
}

/// The bytes for one line more are those for the others and then those of the line, with a line
/// feed.
pub proof fn law_lines_are_relayed_in_turn(list: Seq<Seq<char>>, line: Seq<char>)
    ensures
        relayed_bytes(list + seq![line]) == relayed_bytes(list) + encode_utf8(line) + seq![10u8],
        relayed_bytes(seq![]) == Seq::<u8>::empty(),
    decreases list.len(),
{
    law_line_passes_on(line);
    let more = list + seq![line];
    if list.len() == 0 {
        assert(more == seq![line]);
        assert(more.skip(1).len() == 0);
        reveal_with_fuel(relayed_bytes, 2);
        assert(relayed_bytes(list) == Seq::<u8>::empty());
    } else {
        assert(more.skip(1) == list.skip(1) + seq![line]);
        law_lines_are_relayed_in_turn(list.skip(1), line);
    }
}

} // verus!
