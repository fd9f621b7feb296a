//! Character-level text helpers shared by the rest of the crate.

use vstd::prelude::*;

verus! {

/// Appends one character (std's `String::push`).
#[verifier::external_body]
pub(crate) fn push_char(s: &mut String, c: char)
    ensures
        final(s)@ == old(s)@.push(c),
{
    s.push(c);
}

/// The characters of `s`, in order.
pub fn chars_of(s: &str) -> (r: Vec<char>)
    ensures
        r@ == s@,
{
    let mut out: Vec<char> = Vec::new();
    for c in it: s.chars()
        invariant
            it.seq() == s@,
            out@ == it.seq().take(it.index()),
    {
        out.push(c);
    }
    out
}

/// A line that was closed by `'\n'` loses one trailing `'\r'` (so `"\r\n"`
/// endings read like `"\n"` ones).
pub open spec fn without_cr(line: Seq<char>) -> Seq<char> {
    if line.len() > 0 && line.last() == '\r' {
        line.drop_last()
    } else {
        line
    }
}

/// Scan `rest` with `cur` the part of the current line read so far: a
/// newline closes the current line; at the end, a non-empty unterminated
/// line is kept as it is.
pub open spec fn split_from(rest: Seq<char>, cur: Seq<char>) -> Seq<Seq<char>>
    decreases rest.len(),
{
    if rest.len() == 0 {
        if cur.len() == 0 {
            seq![]
        } else {
            seq![cur]
        }
    } else if rest[0] == '\n' {
        seq![without_cr(cur)] + split_from(rest.drop_first(), seq![])
    } else {
        split_from(rest.drop_first(), cur.push(rest[0]))
    }
}

/// The lines of a text, as std's `str::lines` yields them: split at `'\n'`,
/// a `'\r'` right before a `'\n'` dropped, and no empty last line after a
/// final line ending.
pub open spec fn split_lines(s: Seq<char>) -> Seq<Seq<char>> {
    split_from(s, seq![])
}

/// `s` holds no newline.
pub open spec fn no_newline(s: Seq<char>) -> bool {
    forall|k: int| 0 <= k < s.len() ==> s[k] != '\n'
}

/// Like [`split_from`], but keeping every character of a line (std's
/// `split_terminator('\n')`).
pub open spec fn split_terminated_from(rest: Seq<char>, cur: Seq<char>) -> Seq<Seq<char>>
    decreases rest.len(),
{
    if rest.len() == 0 {
        if cur.len() == 0 {
            seq![]
        } else {
            seq![cur]
        }
    } else if rest[0] == '\n' {
        seq![cur] + split_terminated_from(rest.drop_first(), seq![])
    } else {
        split_terminated_from(rest.drop_first(), cur.push(rest[0]))
    }
}

/// The newline-terminated pieces of a text, each without its newline; a
/// final piece without a newline is kept when non-empty.
pub open spec fn split_terminated(s: Seq<char>) -> Seq<Seq<char>> {
    split_terminated_from(s, seq![])
}

/// A newline right after a newline-free stretch ends the current piece.
pub proof fn lemma_split_terminated_line(x: Seq<char>, y: Seq<char>, cur: Seq<char>)
    requires
        no_newline(x),
    ensures
        split_terminated_from(x + seq!['\n'] + y, cur) == seq![cur + x] + split_terminated_from(
            y,
            seq![],
        ),
    decreases x.len(),
{
    let all = x + seq!['\n'] + y;
    if x.len() == 0 {
        assert(all.drop_first() =~= y);
        assert(cur + x =~= cur);
    } else {
        assert(all[0] == x[0]);
        assert(all.drop_first() =~= x.drop_first() + seq!['\n'] + y);
        lemma_split_terminated_line(x.drop_first(), y, cur.push(x[0]));
        assert(cur.push(x[0]) + x.drop_first() =~= cur + x);
    }
}

proof fn lemma_split_from_no_newline(rest: Seq<char>, cur: Seq<char>)
    requires
        no_newline(cur),
    ensures
        forall|j: int|
            0 <= j < split_from(rest, cur).len() ==> no_newline(#[trigger] split_from(rest, cur)[j]),
    decreases rest.len(),
{
    if rest.len() > 0 {
        if rest[0] == '\n' {
            lemma_split_from_no_newline(rest.drop_first(), seq![]);
            let tail = split_from(rest.drop_first(), seq![]);
            let whole = seq![without_cr(cur)] + tail;
            assert(no_newline(without_cr(cur))) by {
                if cur.len() > 0 && cur.last() == '\r' {
                    assert forall|k: int| 0 <= k < cur.drop_last().len() implies cur.drop_last()[k]
                        != '\n' by {
                        assert(cur.drop_last()[k] == cur[k]);
                    }
                }
            }
            assert forall|j: int| 0 <= j < whole.len() implies no_newline(#[trigger] whole[j]) by {
                if j > 0 {
                    assert(whole[j] == tail[j - 1]);
                }
            }
            assert(split_from(rest, cur) == whole);
            assert(forall|j: int| 0 <= j < split_from(rest, cur).len() ==> no_newline(#[trigger] split_from(rest, cur)[j]));
        } else {
            let next = cur.push(rest[0]);
            assert forall|k: int| 0 <= k < next.len() implies next[k] != '\n' by {
                if k < cur.len() {
                    assert(next[k] == cur[k]);
                }
            }
            lemma_split_from_no_newline(rest.drop_first(), next);
            assert(split_from(rest, cur) == split_from(rest.drop_first(), next));
        }
    } else if cur.len() > 0 {
        assert(split_from(rest, cur) =~= seq![cur]);
    }
}

/// No line of a text holds a newline.
pub proof fn lemma_lines_no_newline(s: Seq<char>)
    ensures
        forall|j: int| 0 <= j < split_lines(s).len() ==> no_newline(#[trigger] split_lines(s)[j]),
{
    lemma_split_from_no_newline(s, seq![]);
}

/// The lines of `s` (see [`split_lines`]).
pub fn lines(s: &str) -> (r: Vec<String>)
    ensures
        r.deep_view() == split_lines(s@),
{
    let cs = chars_of(s);
    let mut out: Vec<String> = Vec::new();
    let mut cur = String::new();
    let mut i: usize = 0;
    assert(cs@.skip(0) == cs@);
    assert(out.deep_view() =~= Seq::<Seq<char>>::empty());
    assert(out.deep_view() + split_from(cs@, cur@) =~= split_from(cs@, cur@));
    while i < cs.len()
        invariant
            0 <= i <= cs@.len(),
            cs@ == s@,
            out.deep_view() + split_from(cs@.skip(i as int), cur@) == split_lines(s@),
        decreases cs@.len() - i,
    {
        let c = cs[i];
        let ghost rest = cs@.skip(i as int);
        assert(rest.drop_first() == cs@.skip(i + 1));
        if c == '\n' {
            let line = strip_cr(cur);
            let ghost before = out.deep_view();
            out.push(line);
            assert(out.deep_view() == before.push(without_cr(cur@)));
            assert(before + (seq![without_cr(cur@)] + split_from(rest.drop_first(), seq![]))
                == out.deep_view() + split_from(rest.drop_first(), seq![]));
            cur = String::new();
        } else {
            push_char(&mut cur, c);
        }
        i = i + 1;
    }
    assert(cs@.skip(i as int).len() == 0);
    if cur.unicode_len() > 0 {
        let ghost before = out.deep_view();
        out.push(cur);
        assert(out.deep_view() == before + seq![cur@]);
    } else {
        assert(out.deep_view() + seq![] == out.deep_view());
    }
    out
}

/// `line` without one trailing `'\r'`.
fn strip_cr(line: String) -> (r: String)
    ensures
        r@ == without_cr(line@),
{
    let n = line.as_str().unicode_len();
    if n > 0 && line.as_str().get_char(n - 1) == '\r' {
        let head = line.as_str().substring_char(0, n - 1);
        assert(head@ == line@.drop_last());
        head.to_owned()
    } else {
        line
    }
}

/// The decimal digit character for `d < 10`.
pub open spec fn digit_char(d: nat) -> char {
    if d == 0 { '0' }
    else if d == 1 { '1' }
    else if d == 2 { '2' }
    else if d == 3 { '3' }
    else if d == 4 { '4' }
    else if d == 5 { '5' }
    else if d == 6 { '6' }
    else if d == 7 { '7' }
    else if d == 8 { '8' }
    else { '9' }
}

/// Decimal notation of a natural number, without leading zeros.
pub open spec fn decimal(n: nat) -> Seq<char>
    decreases n,
{
    if n < 10 {
        seq![digit_char(n)]
    } else {
        decimal(n / 10).push(digit_char(n % 10))
    }
}

/// The value of a decimal digit character (0 for any other character).
pub open spec fn digit_value(c: char) -> nat {
    if '0' <= c && c <= '9' {
        (c as int - '0' as int) as nat
    } else {
        0
    }
}

/// The number a string of decimal digits denotes, most significant first.
pub open spec fn digits_value(s: Seq<char>) -> nat
    decreases s.len(),
{
    if s.len() == 0 {
        0
    } else {
        digits_value(s.drop_last()) * 10 + digit_value(s.last())
    }
}

proof fn lemma_digit_value(d: nat)
    requires
        d < 10,
    ensures
        digit_value(digit_char(d)) == d,
        '0' <= digit_char(d) <= '9',
        digit_char(d) == '0' ==> d == 0,
{
}

/// Law: decimal notation reads back as the number it was made from; it is
/// made of digits only and starts with `0` only for zero itself.
pub proof fn law_decimal_reads_back(n: nat)
    ensures
        digits_value(decimal(n)) == n,
        decimal(n).len() > 0,
        forall|i: int| 0 <= i < decimal(n).len() ==> '0' <= #[trigger] decimal(n)[i] <= '9',
        decimal(n)[0] == '0' ==> n == 0,
    decreases n,
{
    lemma_digit_value(n % 10);
    if n < 10 {
        assert(decimal(n).drop_last() =~= Seq::<char>::empty());
        assert(digits_value(Seq::<char>::empty()) == 0);
        assert(decimal(n).last() == digit_char(n));
    } else {
        law_decimal_reads_back(n / 10);
        let d = decimal(n);
        assert(d.drop_last() =~= decimal(n / 10));
        assert(d[0] == decimal(n / 10)[0]);
        assert forall|i: int| 0 <= i < d.len() implies '0' <= #[trigger] d[i] <= '9' by {
            if i < d.len() - 1 {
                assert(d[i] == decimal(n / 10)[i]);
            }
        }
        assert(d.last() == digit_char(n % 10));
        assert(digits_value(d) == digits_value(decimal(n / 10)) * 10 + digit_value(d.last()));
        assert(n == (n / 10) * 10 + n % 10);
    }
}

/// Decimal notation of an integer, with a leading `-` when negative.
pub open spec fn signed_decimal(v: int) -> Seq<char> {
    if v < 0 {
        seq!['-'] + decimal((-v) as nat)
    } else {
        decimal(v as nat)
    }
}

fn digit(d: u64) -> (c: char)
    requires
        d < 10,
    ensures
        c == digit_char(d as nat),
{
    if d == 0 { '0' }
    else if d == 1 { '1' }
    else if d == 2 { '2' }
    else if d == 3 { '3' }
    else if d == 4 { '4' }
    else if d == 5 { '5' }
    else if d == 6 { '6' }
    else if d == 7 { '7' }
    else if d == 8 { '8' }
    else { '9' }
}

/// `n` in decimal.
pub fn u64_text(n: u64) -> (r: String)
    ensures
        r@ == decimal(n as nat),
    decreases n,
{
    if n < 10 {
        let mut s = String::new();
        push_char(&mut s, digit(n));
        s
    } else {
        let mut s = u64_text(n / 10);
        assert(n as nat / 10 == (n / 10) as nat);
        push_char(&mut s, digit(n % 10));
        s
    }
}

/// `v` in decimal, signed.
pub fn i64_text(v: i64) -> (r: String)
    ensures
        r@ == signed_decimal(v as int),
{
    if v < 0 {
        let magnitude: u64 = if v == i64::MIN {
            9223372036854775808u64
        } else {
            (-v) as u64
        };
        let mut s = "-".to_owned();
        let digits = u64_text(magnitude);
        s.append(digits.as_str());
        proof {
            reveal_strlit("-");
        }
        assert(s@ =~= seq!['-'] + decimal((-(v as int)) as nat));
        s
    } else {
        u64_text(v as u64)
    }
}

/// `n` spaces.
pub open spec fn spaces(n: nat) -> Seq<char> {
    Seq::new(n, |k: int| ' ')
}

/// `s` left-aligned in a field of `width` characters (as `{:<width}`
/// formats): padded with spaces on the right, never cut.
pub open spec fn pad_right(s: Seq<char>, width: nat) -> Seq<char> {
    if s.len() < width {
        s + spaces((width - s.len()) as nat)
    } else {
        s
    }
}

/// Law: padding keeps the text in front, fills with spaces up to `width`,
/// and never cuts a longer text.
pub proof fn law_pad_right_fills_with_spaces(s: Seq<char>, width: nat)
    ensures
        pad_right(s, width).len() == if s.len() < width {
            width
        } else {
            s.len()
        },
        s.is_prefix_of(pad_right(s, width)),
        forall|i: int| s.len() <= i < pad_right(s, width).len() ==> #[trigger] pad_right(s, width)[i] == ' ',
{
    assert(pad_right(s, width).subrange(0, s.len() as int) =~= s);
}

/// Append `s` to `out`, left-aligned in a field of `width` characters.
pub fn append_padded(out: &mut String, s: &str, width: usize)
    ensures
        final(out)@ == old(out)@ + pad_right(s@, width as nat),
{
    out.append(s);
    let n = s.unicode_len();
    let mut k = n;
    while k < width
        invariant
            n == s@.len(),
            n <= k <= width || (k == n && n >= width),
            out@ == old(out)@ + s@ + spaces((k - n) as nat),
        decreases width - k,
    {
        push_char(out, ' ');
        k = k + 1;
        assert(spaces((k - n) as nat) =~= spaces((k - 1 - n) as nat).push(' '));
    }
    assert(out@ =~= old(out)@ + pad_right(s@, width as nat));
}

/// Whether `s` starts with `prefix`.
pub fn has_prefix(s: &str, prefix: &str) -> (r: bool)
    ensures
        r == prefix@.is_prefix_of(s@),
{
    let a = chars_of(s);
    let p = chars_of(prefix);
    if p.len() > a.len() {
        return false;
    }
    let mut k: usize = 0;
    while k < p.len()
        invariant
            a@ == s@,
            p@ == prefix@,
            p@.len() <= a@.len(),
            k <= p@.len(),
            forall|x: int| 0 <= x < k ==> p@[x] == a@[x],
        decreases p@.len() - k,
    {
        if p[k] != a[k] {
            assert(p@[k as int] != a@.subrange(0, p@.len() as int)[k as int]);
            return false;
        }
        k = k + 1;
    }
    assert(p@ =~= a@.subrange(0, p@.len() as int));
    true
}

/// The texts `f(x)` of all items, one after the other.
pub open spec fn concat_map<T>(s: Seq<T>, f: spec_fn(T) -> Seq<char>) -> Seq<char>
    decreases s.len(),
{
    if s.len() == 0 {
        seq![]
    } else {
        concat_map(s.drop_last(), f) + f(s.last())
    }
}

/// One more item of a prefix adds its text at the end.
pub proof fn lemma_concat_map_step<T>(s: Seq<T>, f: spec_fn(T) -> Seq<char>, i: int)
    requires
        0 <= i < s.len(),
    ensures
        concat_map(s.take(i + 1), f) == concat_map(s.take(i), f) + f(s[i]),
{
    assert(s.take(i + 1).drop_last() =~= s.take(i));
}

/// Items with the same texts give the same concatenation.
pub proof fn lemma_concat_map_pointwise<T>(s1: Seq<T>, s2: Seq<T>, f: spec_fn(T) -> Seq<char>)
    requires
        s1.len() == s2.len(),
        forall|k: int| 0 <= k < s1.len() ==> f(#[trigger] s1[k]) == f(s2[k]),
    ensures
        concat_map(s1, f) == concat_map(s2, f),
    decreases s1.len(),
{
    if s1.len() > 0 {
        let t1 = s1.drop_last();
        let t2 = s2.drop_last();
        assert forall|k: int| 0 <= k < t1.len() implies f(#[trigger] t1[k]) == f(t2[k]) by {
            assert(t1[k] == s1[k] && t2[k] == s2[k]);
        }
        lemma_concat_map_pointwise(t1, t2, f);
        assert(f(s1[s1.len() - 1]) == f(s2[s2.len() - 1]));
    }
}

/// The texts of two sequences, one after the other, are those of their
/// concatenation.
pub proof fn lemma_concat_map_append<T>(a: Seq<T>, b: Seq<T>, f: spec_fn(T) -> Seq<char>)
    ensures
        concat_map(a + b, f) == concat_map(a, f) + concat_map(b, f),
    decreases b.len(),
{
    if b.len() == 0 {
        assert(a + b =~= a);
        assert(concat_map(a, f) + concat_map(b, f) =~= concat_map(a, f));
    } else {
        lemma_concat_map_append(a, b.drop_last(), f);
        assert((a + b).drop_last() =~= a + b.drop_last());
        assert((a + b).last() == b.last());
        assert(concat_map(a, f) + concat_map(b.drop_last(), f) + f(b.last()) =~= concat_map(a, f)
            + (concat_map(b.drop_last(), f) + f(b.last())));
    }
}

/// The whole of a sequence is its longest prefix.
pub proof fn lemma_take_all<T>(s: Seq<T>)
    ensures
        s.take(s.len() as int) == s,
{
    assert(s.take(s.len() as int) =~= s);
}

/// Items separated by `sep`.
pub open spec fn joined(items: Seq<Seq<char>>, sep: Seq<char>) -> Seq<char>
    decreases items.len(),
{
    if items.len() == 0 {
        seq![]
    } else if items.len() == 1 {
        items[0]
    } else {
        joined(items.drop_last(), sep) + sep + items.last()
    }
}

/// Law: joining one more item adds the separator and the item at the end.
pub proof fn law_joined_push(items: Seq<Seq<char>>, sep: Seq<char>, x: Seq<char>)
    ensures
        joined(seq![x], sep) == x,
        items.len() > 0 ==> joined(items.push(x), sep) == joined(items, sep) + sep + x,
{
    assert(items.push(x).drop_last() =~= items);
}

/// The items of `items`, separated by `sep` (as `[String]::join`).
pub fn join(items: &Vec<String>, sep: &str) -> (r: String)
    ensures
        r@ == joined(items.deep_view(), sep@),
{
    let ghost v = items.deep_view();
    let mut out = String::new();
    let mut i: usize = 0;
    assert(v.take(0) =~= Seq::<Seq<char>>::empty());
    while i < items.len()
        invariant
            v == items.deep_view(),
            i <= items@.len(),
            out@ == joined(v.take(i as int), sep@),
        decreases items@.len() - i,
    {
        assert(v.take(i + 1).drop_last() =~= v.take(i as int));
        assert(v[i as int] == items@[i as int]@);
        if i > 0 {
            out.append(sep);
        } else {
            assert(v.take(1) =~= seq![v[0]]);
        }
        out.append(items[i].as_str());
        i = i + 1;
    }
    assert(v.take(i as int) =~= v);
    out
}

/// The text of an optional value, or `default` when absent.
pub open spec fn or_text(o: Option<String>, default: Seq<char>) -> Seq<char> {
    match o {
        Some(s) => s@,
        None => default,
    }
}

/// Append the optional value, or `default` when absent.
pub fn append_or(out: &mut String, o: &Option<String>, default: &str)
    ensures
        final(out)@ == old(out)@ + or_text(*o, default@),
{
    match o {
        Some(s) => out.append(s.as_str()),
        None => out.append(default),
    }
}

/// Same as [`append_padded`] for an optional value with a default.
pub fn append_or_padded(out: &mut String, o: &Option<String>, default: &str, width: usize)
    ensures
        final(out)@ == old(out)@ + pad_right(or_text(*o, default@), width as nat),
{
    match o {
        Some(s) => append_padded(out, s.as_str(), width),
        None => append_padded(out, default, width),
    }
}

} // verus!
