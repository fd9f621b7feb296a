//! Framing of the live log stream (server-sent events): events are separated
//! by a blank line (`"\n\n"`); of each complete event that is valid UTF-8,
//! the payloads of its `data: ` lines are what gets rendered.

use vstd::prelude::*;
use vstd::utf8::{valid_utf8, decode_utf8};
use crate::text::{lines, split_lines, has_prefix};

verus! {

/// `s[p]` and `s[p + 1]` are both newlines.
pub open spec fn blank_at(s: Seq<u8>, p: int) -> bool {
    0 <= p && p + 1 < s.len() && s[p] == 10u8 && s[p + 1] == 10u8
}

/// `p` is the first position where a blank line separator starts.
pub open spec fn first_blank_at(s: Seq<u8>, p: int) -> bool {
    blank_at(s, p) && forall|q: int| 0 <= q < p ==> !blank_at(s, q)
}

/// The complete events in a buffer, in order, and the incomplete remainder.
pub open spec fn split_events(s: Seq<u8>) -> (Seq<Seq<u8>>, Seq<u8>)
    decreases s.len(),
{
    if exists|p: int| first_blank_at(s, p) {
        let p = choose|p: int| first_blank_at(s, p);
        let (events, rest) = split_events(s.skip(p + 2));
        (seq![s.take(p)] + events, rest)
    } else {
        (seq![], s)
    }
}

/// The payload of a `data: ` line, if it is one.
pub open spec fn data_payload(line: Seq<char>) -> Option<Seq<char>> {
    if "data: "@.is_prefix_of(line) {
        Some(line.skip("data: "@.len() as int))
    } else {
        None
    }
}

/// The payloads of the `data: ` lines among `ls`, in order.
pub open spec fn payloads(ls: Seq<Seq<char>>) -> Seq<Seq<char>>
    decreases ls.len(),
{
    if ls.len() == 0 {
        seq![]
    } else {
        payloads(ls.drop_last()) + match data_payload(ls.last()) {
            Some(p) => seq![p],
            None => seq![],
        }
    }
}

/// Law: every `data: ` line gives its payload, the text after `data: `, in
/// the order of the lines; any other line gives none.
pub proof fn law_data_lines_in_order(ls: Seq<Seq<char>>, payload: Seq<char>, other: Seq<char>)
    ensures
        payloads(ls.push("data: "@ + payload)) == payloads(ls).push(payload),
        !"data: "@.is_prefix_of(other) ==> payloads(ls.push(other)) == payloads(ls),
{
    let data = "data: "@ + payload;
    assert(ls.push(data).drop_last() =~= ls);
    assert(ls.push(other).drop_last() =~= ls);
    assert("data: "@.is_prefix_of(data)) by {
        assert(data.subrange(0, "data: "@.len() as int) =~= "data: "@);
    }
    assert(data.skip("data: "@.len() as int) =~= payload);
    assert(payloads(ls) + seq![payload] =~= payloads(ls).push(payload));
    assert(payloads(ls) + Seq::<Seq<char>>::empty() =~= payloads(ls));
}

/// The payloads of one event: none unless it is valid UTF-8.
pub open spec fn event_payloads(event: Seq<u8>) -> Seq<Seq<char>> {
    if valid_utf8(event) {
        payloads(split_lines(decode_utf8(event)))
    } else {
        seq![]
    }
}

/// The payloads of several events, in order.
pub open spec fn events_payloads(events: Seq<Seq<u8>>) -> Seq<Seq<char>>
    decreases events.len(),
{
    if events.len() == 0 {
        seq![]
    } else {
        event_payloads(events[0]) + events_payloads(events.drop_first())
    }
}

/// The text of UTF-8 bytes (std's `str::from_utf8`): `Some` exactly when
/// the bytes are valid UTF-8, with the characters they encode.
#[verifier::external_body]
fn utf8_text(bytes: &[u8]) -> (r: Option<String>)
    ensures
        r is Some <==> valid_utf8(bytes@),
        r matches Some(s) ==> s@ == decode_utf8(bytes@),
{
    std::str::from_utf8(bytes).ok().map(|s| s.to_owned())
}

/// The payloads of the `data: ` lines of a text.
pub fn data_payloads(text: &str) -> (r: Vec<String>)
    ensures
        r.deep_view() == payloads(split_lines(text@)),
{
    let ls = lines(text);
    let ghost lv = ls.deep_view();
    let mut out: Vec<String> = Vec::new();
    let mut i: usize = 0;
    proof {
        reveal_strlit("data: ");
    }
    assert(lv.take(0) =~= Seq::<Seq<char>>::empty());
    while i < ls.len()
        invariant
            lv == ls.deep_view(),
            lv == split_lines(text@),
            "data: "@.len() == 6,
            i <= lv.len(),
            out.deep_view() == payloads(lv.take(i as int)),
        decreases lv.len() - i,
    {
        let line = ls[i].as_str();
        assert(lv.take(i + 1).drop_last() =~= lv.take(i as int));
        assert(lv[i as int] == line@);
        let ghost before = out.deep_view();
        if has_prefix(line, "data: ") {
            let n = line.unicode_len();
            let payload = line.substring_char(6, n);
            out.push(payload.to_owned());
            assert(out.deep_view() =~= before + seq![line@.skip(6)]);
        } else {
            assert(before + seq![] =~= before);
        }
        i = i + 1;
    }
    assert(lv.take(i as int) =~= lv);
    out
}

proof fn lemma_first_blank_unique(s: Seq<u8>, p: int)
    requires
        first_blank_at(s, p),
    ensures
        (choose|q: int| first_blank_at(s, q)) == p,
{
    let q = choose|q: int| first_blank_at(s, q);
    assert(first_blank_at(s, q));
    if q < p {
        assert(!blank_at(s, q));
    } else if p < q {
        assert(!blank_at(s, p));
    }
}

proof fn lemma_events_payloads_append(a: Seq<Seq<u8>>, b: Seq<Seq<u8>>)
    ensures
        events_payloads(a + b) == events_payloads(a) + events_payloads(b),
    decreases a.len(),
{
    if a.len() == 0 {
        assert(a + b =~= b);
    } else {
        lemma_events_payloads_append(a.drop_first(), b);
        assert((a + b).drop_first() =~= a.drop_first() + b);
    }
}

proof fn lemma_split_append(x: Seq<u8>, y: Seq<u8>)
    ensures
        split_events(x + y).0 == split_events(x).0 + split_events(split_events(x).1 + y).0,
        split_events(x + y).1 == split_events(split_events(x).1 + y).1,
    decreases x.len(),
{
    if exists|p: int| first_blank_at(x, p) {
        let p = choose|p: int| first_blank_at(x, p);
        let xy = x + y;
        assert(first_blank_at(xy, p)) by {
            assert(xy[p] == x[p] && xy[p + 1] == x[p + 1]);
            assert forall|q: int| 0 <= q < p implies !blank_at(xy, q) by {
                assert(!blank_at(x, q));
                assert(xy[q] == x[q] && xy[q + 1] == x[q + 1]);
            }
        }
        lemma_first_blank_unique(xy, p);
        assert(xy.skip(p + 2) =~= x.skip(p + 2) + y);
        assert(xy.take(p) =~= x.take(p));
        lemma_split_append(x.skip(p + 2), y);
        let (e1, r1) = split_events(x.skip(p + 2));
        assert(seq![x.take(p)] + (e1 + split_events(r1 + y).0) =~= (seq![x.take(p)] + e1)
            + split_events(r1 + y).0);
    } else {
        assert(split_events(x).0 =~= Seq::<Seq<u8>>::empty());
        assert(Seq::<Seq<u8>>::empty() + split_events(x + y).0 =~= split_events(x + y).0);
    }
}

/// Law: an event is everything before the first blank line. Bytes with no
/// blank line in them are no event yet and are kept whole; an event `e`
/// (holding no blank line, and not ending in a newline) followed by a blank
/// line and `rest` comes out first, then the events of `rest`, which also
/// leaves the tail.
pub proof fn law_event_ends_at_blank_line(e: Seq<u8>, rest: Seq<u8>)
    ensures
        (forall|q: int| !blank_at(e, q)) ==> split_events(e) == (Seq::<Seq<u8>>::empty(), e),
        (forall|q: int| !blank_at(e, q)) && (e.len() == 0 || e.last() != 10u8) ==> split_events(
            e + seq![10u8, 10u8] + rest,
        ) == (seq![e] + split_events(rest).0, split_events(rest).1),
{
    if forall|q: int| !blank_at(e, q) {
        assert(!exists|p: int| first_blank_at(e, p));
        if e.len() == 0 || e.last() != 10u8 {
            let s = e + seq![10u8, 10u8] + rest;
            let p = e.len() as int;
            assert(s[p] == 10u8 && s[p + 1] == 10u8);
            assert forall|q: int| 0 <= q < p implies !blank_at(s, q) by {
                assert(!blank_at(e, q));
                assert(s[q] == e[q]);
                if q + 1 < p {
                    assert(s[q + 1] == e[q + 1]);
                }
            }
            assert(first_blank_at(s, p));
            lemma_first_blank_unique(s, p);
            assert(s.take(p) =~= e);
            assert(s.skip(p + 2) =~= rest);
        }
    }
}

/// Law: how the stream is cut into chunks does not matter. Feeding `c1`
/// then `c2` yields, in total, the same payloads and leaves the same tail as
/// feeding `c1 + c2` at once.
pub proof fn law_feed_ignores_chunking(buf: Seq<u8>, c1: Seq<u8>, c2: Seq<u8>)
    ensures
        ({
            let first = split_events(buf + c1);
            let second = split_events(first.1 + c2);
            let whole = split_events(buf + c1 + c2);
            &&& events_payloads(first.0) + events_payloads(second.0) == events_payloads(whole.0)
            &&& second.1 == whole.1
        }),
{
    lemma_split_append(buf + c1, c2);
    lemma_events_payloads_append(split_events(buf + c1).0, split_events(split_events(buf + c1).1 + c2).0);
}

/// Feed a received chunk: the buffer gains the chunk, every complete event
/// is taken out, and the payloads of their `data: ` lines are returned in
/// order; what is left is the incomplete tail.
pub fn feed(buf: &mut Vec<u8>, chunk: &[u8]) -> (r: Vec<String>)
    ensures
        final(buf)@ == split_events(old(buf)@ + chunk@).1,
        r.deep_view() == events_payloads(split_events(old(buf)@ + chunk@).0),
{
    let mut data: Vec<u8> = Vec::new();
    let mut k: usize = 0;
    while k < buf.len()
        invariant
            k <= buf@.len(),
            buf@ == old(buf)@,
            data@ == buf@.take(k as int),
        decreases buf@.len() - k,
    {
        data.push(buf[k]);
        k = k + 1;
    }
    k = 0;
    let ghost base = data@;
    assert(base =~= old(buf)@);
    while k < chunk.len()
        invariant
            k <= chunk@.len(),
            data@ == base + chunk@.take(k as int),
        decreases chunk@.len() - k,
    {
        data.push(chunk[k]);
        k = k + 1;
    }
    assert(chunk@.take(k as int) =~= chunk@);
    let ghost all = data@;
    let mut out: Vec<String> = Vec::new();
    let mut start: usize = 0;
    assert(all.skip(0) =~= all);
    loop
        invariant
            data@ == all,
            all == old(buf)@ + chunk@,
            start <= all.len(),
            split_events(all).1 == split_events(all.skip(start as int)).1,
            events_payloads(split_events(all).0) == out.deep_view() + events_payloads(
                split_events(all.skip(start as int)).0,
            ),
        decreases all.len() - start,
    {
        let ghost s = all.skip(start as int);
        // Find the first blank line at or after `start`.
        let mut p: usize = start;
        while p < data.len() && data.len() - p >= 2 && !(data[p] == 10u8 && data[p + 1] == 10u8)
            invariant
                data@ == all,
                start <= p <= all.len(),
                s == all.skip(start as int),
                forall|q: int| 0 <= q < p - start ==> !blank_at(s, q),
            decreases data@.len() - p,
        {
            assert(!blank_at(s, p - start)) by {
                assert(s[p - start] == all[p as int]);
                assert(s[p - start + 1] == all[p + 1]);
            }
            p = p + 1;
        }
        let found = data.len() - p >= 2;
        if !found {
            assert forall|q: int| #![auto] !first_blank_at(s, q) by {
                if first_blank_at(s, q) {
                    assert(!blank_at(s, q));
                }
            }
            buf.clear();
            let mut t = start;
            while t < data.len()
                invariant
                    data@ == all,
                    start <= t <= all.len(),
                    buf@ == all.subrange(start as int, t as int),
                decreases all.len() - t,
            {
                buf.push(data[t]);
                t = t + 1;
            }
            assert(buf@ =~= s);
            assert(out.deep_view() + seq![] =~= out.deep_view());
            return out;
        }
        let ghost q = p - start;
        assert(blank_at(s, q)) by {
            assert(s[q] == all[p as int]);
            assert(s[q + 1] == all[p + 1]);
        }
        assert(first_blank_at(s, q));
        proof {
            lemma_first_blank_unique(s, q);
        }
        // The event is data[start..p].
        let mut event: Vec<u8> = Vec::new();
        let mut t = start;
        while t < p
            invariant
                data@ == all,
                start <= t <= p,
                p + 1 < all.len(),
                event@ == all.subrange(start as int, t as int),
            decreases p - t,
        {
            event.push(data[t]);
            t = t + 1;
        }
        assert(event@ =~= s.take(q));
        assert(s.skip(q + 2) =~= all.skip(p + 2));
        let ghost before = out.deep_view();
        match utf8_text(event.as_slice()) {
            Some(text) => {
                let got = data_payloads(text.as_str());
                let mut g: usize = 0;
                while g < got.len()
                    invariant
                        g <= got@.len(),
                        out.deep_view() == before + got.deep_view().take(g as int),
                    decreases got@.len() - g,
                {
                    let ghost prev = out.deep_view();
                    out.push(got[g].clone());
                    assert(out.deep_view() =~= prev.push(got@[g as int]@));
                    assert(got.deep_view().take(g + 1) =~= got.deep_view().take(g as int).push(
                        got@[g as int]@,
                    ));
                    g = g + 1;
                }
                assert(got.deep_view().take(g as int) =~= got.deep_view());
            },
            None => {
                assert(before + seq![] =~= before);
            },
        }
        proof {
            let tail = split_events(s.skip(q + 2));
            assert(split_events(s) == (seq![s.take(q)] + tail.0, tail.1));
            lemma_events_payloads_append(seq![s.take(q)], tail.0);
            let one = seq![s.take(q)];
            assert(one.drop_first() =~= Seq::<Seq<u8>>::empty());
            assert(events_payloads(one.drop_first()) =~= Seq::<Seq<char>>::empty());
            assert(event_payloads(s.take(q)) + Seq::<Seq<char>>::empty() =~= event_payloads(s.take(q)));
            assert(events_payloads(one) =~= event_payloads(s.take(q)));
            assert(out.deep_view() == before + event_payloads(s.take(q)));
        }
        start = p + 2;
    }
}

} // verus!
