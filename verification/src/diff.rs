//! Line diff between two config versions, built on a longest common
//! subsequence of their lines. Output lines are marked `"  "` (unchanged),
//! `"- "` (only in the old text) and `"+ "` (only in the new text).

use vstd::prelude::*;
use crate::text::{
    lemma_lines_no_newline, lemma_split_terminated_line, lines, no_newline, split_lines,
    split_terminated,
};

verus! {

/// How a line of the diff relates the two texts.
pub enum LineKind {
    Keep,
    Remove,
    Add,
}

/// One rendered line of a diff.
pub struct DiffLine {
    pub kind: LineKind,
    pub text: Seq<char>,
}

/// Length of a longest common subsequence of `a[i..]` and `b[j..]`.
pub open spec fn lcs(a: Seq<Seq<char>>, b: Seq<Seq<char>>, i: int, j: int) -> nat
    decreases a.len() - i + b.len() - j,
{
    if i < 0 || j < 0 || i >= a.len() || j >= b.len() {
        0
    } else if a[i] == b[j] {
        1 + lcs(a, b, i + 1, j + 1)
    } else {
        let down = lcs(a, b, i + 1, j);
        let right = lcs(a, b, i, j + 1);
        if down >= right {
            down
        } else {
            right
        }
    }
}

/// The diff of `a[i..]` against `b[j..]`: equal heads are kept; otherwise
/// the old line is removed when that keeps a longest common subsequence
/// within reach (ties prefer removing), else the new line is added; once one
/// side is exhausted, the rest of the other is removed or added.
pub open spec fn diff_from(a: Seq<Seq<char>>, b: Seq<Seq<char>>, i: int, j: int) -> Seq<DiffLine>
    decreases a.len() - i + b.len() - j,
    when 0 <= i <= a.len() && 0 <= j <= b.len()
{
    if i < a.len() && j < b.len() {
        if a[i] == b[j] {
            seq![DiffLine { kind: LineKind::Keep, text: a[i] }] + diff_from(a, b, i + 1, j + 1)
        } else if lcs(a, b, i + 1, j) >= lcs(a, b, i, j + 1) {
            seq![DiffLine { kind: LineKind::Remove, text: a[i] }] + diff_from(a, b, i + 1, j)
        } else {
            seq![DiffLine { kind: LineKind::Add, text: b[j] }] + diff_from(a, b, i, j + 1)
        }
    } else if i < a.len() {
        seq![DiffLine { kind: LineKind::Remove, text: a[i] }] + diff_from(a, b, i + 1, j)
    } else if j < b.len() {
        seq![DiffLine { kind: LineKind::Add, text: b[j] }] + diff_from(a, b, i, j + 1)
    } else {
        seq![]
    }
}

/// The diff of two lists of lines.
pub open spec fn diff_lines(a: Seq<Seq<char>>, b: Seq<Seq<char>>) -> Seq<DiffLine> {
    diff_from(a, b, 0, 0)
}

/// The marker that starts a rendered line.
pub open spec fn marker(kind: LineKind) -> Seq<char> {
    match kind {
        LineKind::Keep => seq![' ', ' '],
        LineKind::Remove => seq!['-', ' '],
        LineKind::Add => seq!['+', ' '],
    }
}

/// A diff as text: each line is its marker, its text and a newline.
pub open spec fn render(d: Seq<DiffLine>) -> Seq<char>
    decreases d.len(),
{
    if d.len() == 0 {
        seq![]
    } else {
        marker(d[0].kind) + d[0].text + seq!['\n'] + render(d.drop_first())
    }
}

/// What `line_diff` prints for two texts.
pub open spec fn spec_line_diff(from: Seq<char>, to: Seq<char>) -> Seq<char> {
    render(diff_lines(split_lines(from), split_lines(to)))
}

/// The LCS of suffixes is bounded by both suffix lengths.
proof fn lemma_lcs_bounded(a: Seq<Seq<char>>, b: Seq<Seq<char>>, i: int, j: int)
    requires
        0 <= i <= a.len(),
        0 <= j <= b.len(),
    ensures
        lcs(a, b, i, j) <= a.len() - i,
        lcs(a, b, i, j) <= b.len() - j,
    decreases a.len() - i + b.len() - j,
{
    if i < a.len() && j < b.len() {
        lemma_lcs_bounded(a, b, i + 1, j + 1);
        lemma_lcs_bounded(a, b, i + 1, j);
        lemma_lcs_bounded(a, b, i, j + 1);
    }
}

/// The old text's lines as a diff shows them: unchanged and removed lines.
pub open spec fn old_side(d: Seq<DiffLine>) -> Seq<Seq<char>>
    decreases d.len(),
{
    if d.len() == 0 {
        seq![]
    } else if d[0].kind is Add {
        old_side(d.drop_first())
    } else {
        seq![d[0].text] + old_side(d.drop_first())
    }
}

/// The new text's lines as a diff shows them: unchanged and added lines.
pub open spec fn new_side(d: Seq<DiffLine>) -> Seq<Seq<char>>
    decreases d.len(),
{
    if d.len() == 0 {
        seq![]
    } else if d[0].kind is Remove {
        new_side(d.drop_first())
    } else {
        seq![d[0].text] + new_side(d.drop_first())
    }
}

/// How many lines a diff keeps unchanged.
pub open spec fn kept(d: Seq<DiffLine>) -> nat
    decreases d.len(),
{
    if d.len() == 0 {
        0
    } else if d[0].kind is Keep {
        1 + kept(d.drop_first())
    } else {
        kept(d.drop_first())
    }
}

/// `p` and `q` pick a common subsequence of `a` and `b`: equally many
/// strictly increasing, in-bounds positions whose lines agree pairwise.
pub open spec fn is_common_subsequence(
    a: Seq<Seq<char>>,
    b: Seq<Seq<char>>,
    p: Seq<int>,
    q: Seq<int>,
) -> bool {
    &&& p.len() == q.len()
    &&& forall|t: int| 0 <= t < p.len() ==> 0 <= #[trigger] p[t] < a.len()
    &&& forall|t: int| 0 <= t < q.len() ==> 0 <= #[trigger] q[t] < b.len()
    &&& forall|t: int, u: int| 0 <= t < u < p.len() ==> #[trigger] p[t] < #[trigger] p[u]
    &&& forall|t: int, u: int| 0 <= t < u < q.len() ==> #[trigger] q[t] < #[trigger] q[u]
    &&& forall|t: int| 0 <= t < p.len() ==> a[#[trigger] p[t]] == b[q[t]]
}

proof fn lemma_sides_from(a: Seq<Seq<char>>, b: Seq<Seq<char>>, i: int, j: int)
    requires
        0 <= i <= a.len(),
        0 <= j <= b.len(),
    ensures
        old_side(diff_from(a, b, i, j)) == a.skip(i),
        new_side(diff_from(a, b, i, j)) == b.skip(j),
        kept(diff_from(a, b, i, j)) == lcs(a, b, i, j),
    decreases a.len() - i + b.len() - j,
{
    let d = diff_from(a, b, i, j);
    if i < a.len() && j < b.len() {
        if a[i] == b[j] {
            lemma_sides_from(a, b, i + 1, j + 1);
            assert(d.drop_first() == diff_from(a, b, i + 1, j + 1));
            assert(a.skip(i) =~= seq![a[i]] + a.skip(i + 1));
            assert(b.skip(j) =~= seq![b[j]] + b.skip(j + 1));
        } else if lcs(a, b, i + 1, j) >= lcs(a, b, i, j + 1) {
            lemma_sides_from(a, b, i + 1, j);
            assert(d.drop_first() == diff_from(a, b, i + 1, j));
            assert(a.skip(i) =~= seq![a[i]] + a.skip(i + 1));
        } else {
            lemma_sides_from(a, b, i, j + 1);
            assert(d.drop_first() == diff_from(a, b, i, j + 1));
            assert(b.skip(j) =~= seq![b[j]] + b.skip(j + 1));
        }
    } else if i < a.len() {
        lemma_sides_from(a, b, i + 1, j);
        assert(d.drop_first() == diff_from(a, b, i + 1, j));
        assert(a.skip(i) =~= seq![a[i]] + a.skip(i + 1));
    } else if j < b.len() {
        lemma_sides_from(a, b, i, j + 1);
        assert(d.drop_first() == diff_from(a, b, i, j + 1));
        assert(b.skip(j) =~= seq![b[j]] + b.skip(j + 1));
    } else {
        assert(a.skip(i) =~= seq![]);
        assert(b.skip(j) =~= seq![]);
    }
}

/// Law: a diff loses nothing. Its unchanged and removed lines, in order,
/// are exactly the old lines; its unchanged and added lines are exactly the
/// new lines.
pub proof fn law_diff_reconstructs_both_sides(a: Seq<Seq<char>>, b: Seq<Seq<char>>)
    ensures
        old_side(diff_lines(a, b)) == a,
        new_side(diff_lines(a, b)) == b,
{
    lemma_sides_from(a, b, 0, 0);
    assert(a.skip(0) == a);
    assert(b.skip(0) == b);
}

/// Law: a diff keeps exactly as many lines unchanged as a longest common
/// subsequence of the two line lists has.
pub proof fn law_diff_keeps_lcs(a: Seq<Seq<char>>, b: Seq<Seq<char>>)
    ensures
        kept(diff_lines(a, b)) == lcs(a, b, 0, 0),
{
    lemma_sides_from(a, b, 0, 0);
}

proof fn lemma_lcs_maximal(
    a: Seq<Seq<char>>,
    b: Seq<Seq<char>>,
    p: Seq<int>,
    q: Seq<int>,
    i: int,
    j: int,
)
    requires
        0 <= i <= a.len(),
        0 <= j <= b.len(),
        is_common_subsequence(a, b, p, q),
        forall|t: int| 0 <= t < p.len() ==> i <= #[trigger] p[t],
        forall|t: int| 0 <= t < q.len() ==> j <= #[trigger] q[t],
    ensures
        p.len() <= lcs(a, b, i, j),
    decreases a.len() - i + b.len() - j,
{
    if p.len() == 0 {
        return;
    }
    if i >= a.len() || j >= b.len() {
        assert(0 <= p[0] < a.len() && 0 <= q[0] < b.len());
        return;
    }
    let p1 = p.drop_first();
    let q1 = q.drop_first();
    assert(is_common_subsequence(a, b, p1, q1)) by {
        assert forall|t: int, u: int| 0 <= t < u < p1.len() implies #[trigger] p1[t] < #[trigger] p1[u] by {
            assert(p[t + 1] < p[u + 1]);
        }
        assert forall|t: int, u: int| 0 <= t < u < q1.len() implies #[trigger] q1[t] < #[trigger] q1[u] by {
            assert(q[t + 1] < q[u + 1]);
        }
        assert forall|t: int| 0 <= t < p1.len() implies a[#[trigger] p1[t]] == b[q1[t]] by {
            assert(a[p[t + 1]] == b[q[t + 1]]);
        }
    }
    assert forall|t: int| 0 <= t < p1.len() implies p[0] < #[trigger] p1[t] by {
        assert(p[0] < p[t + 1]);
    }
    assert forall|t: int| 0 <= t < q1.len() implies q[0] < #[trigger] q1[t] by {
        assert(q[0] < q[t + 1]);
    }
    if a[i] == b[j] {
        if p[0] == i || q[0] == j {
            // Drop the first pair; the rest starts strictly later on both sides.
            lemma_lcs_maximal(a, b, p1, q1, i + 1, j + 1);
        } else {
            assert forall|t: int| 0 <= t < p.len() implies i + 1 <= #[trigger] p[t] by {
                if t > 0 {
                    assert(p[0] < p[t]);
                }
            }
            assert forall|t: int| 0 <= t < q.len() implies j + 1 <= #[trigger] q[t] by {
                if t > 0 {
                    assert(q[0] < q[t]);
                }
            }
            lemma_lcs_maximal(a, b, p, q, i + 1, j + 1);
            lemma_lcs_maximal(a, b, p1, q1, i + 1, j + 1);
        }
    } else if p[0] > i {
        assert forall|t: int| 0 <= t < p.len() implies i + 1 <= #[trigger] p[t] by {
            if t > 0 {
                assert(p[0] < p[t]);
            }
        }
        lemma_lcs_maximal(a, b, p, q, i + 1, j);
    } else {
        // p[0] == i, so q[0] != j: every position of q is past j.
        assert(a[p[0]] == b[q[0]]);
        assert forall|t: int| 0 <= t < q.len() implies j + 1 <= #[trigger] q[t] by {
            if t > 0 {
                assert(q[0] < q[t]);
            }
        }
        lemma_lcs_maximal(a, b, p, q, i, j + 1);
    }
}

/// Law: the diff is minimal. No common subsequence of the two line lists is
/// longer than the set of lines the diff keeps unchanged, so no diff with the
/// same markers removes or adds fewer lines.
pub proof fn law_diff_keeps_the_most(
    a: Seq<Seq<char>>,
    b: Seq<Seq<char>>,
    p: Seq<int>,
    q: Seq<int>,
)
    requires
        is_common_subsequence(a, b, p, q),
    ensures
        p.len() <= kept(diff_lines(a, b)),
{
    assert forall|t: int| 0 <= t < p.len() implies 0 <= #[trigger] p[t] by {}
    assert forall|t: int| 0 <= t < q.len() implies 0 <= #[trigger] q[t] by {}
    lemma_lcs_maximal(a, b, p, q, 0, 0);
    lemma_sides_from(a, b, 0, 0);
}

proof fn lemma_identical_from(a: Seq<Seq<char>>, i: int)
    requires
        0 <= i <= a.len(),
    ensures
        diff_from(a, a, i, i) == a.skip(i).map_values(
            |l: Seq<char>| DiffLine { kind: LineKind::Keep, text: l },
        ),
    decreases a.len() - i,
{
    let f = |l: Seq<char>| DiffLine { kind: LineKind::Keep, text: l };
    if i < a.len() {
        lemma_identical_from(a, i + 1);
        assert(a.skip(i).map_values(f) =~= seq![f(a[i])] + a.skip(i + 1).map_values(f));
    } else {
        assert(a.skip(i).map_values(f) =~= seq![]);
    }
}

/// Law: identical texts diff to nothing but unchanged lines, one per line
/// and in order.
pub proof fn law_identical_is_all_context(a: Seq<Seq<char>>)
    ensures
        diff_lines(a, a) == a.map_values(|l: Seq<char>| DiffLine { kind: LineKind::Keep, text: l }),
{
    lemma_identical_from(a, 0);
    assert(a.skip(0) == a);
}

/// How many lines of a diff are of the given kind.
pub open spec fn count_kind(d: Seq<DiffLine>, kind: LineKind) -> nat
    decreases d.len(),
{
    if d.len() == 0 {
        0
    } else {
        count_kind(d.drop_first(), kind) + if d[0].kind == kind {
            1nat
        } else {
            0nat
        }
    }
}

/// A diff line as printed, without its newline: marker, then text.
pub open spec fn rendered_line(l: DiffLine) -> Seq<char> {
    marker(l.kind) + l.text
}

/// The printed lines of a diff, without their newlines.
pub open spec fn rendered_lines(d: Seq<DiffLine>) -> Seq<Seq<char>> {
    Seq::new(d.len(), |k: int| rendered_line(d[k]))
}

/// A printed line starts with the marker character `c` and a space.
pub open spec fn has_marker(l: Seq<char>, c: char) -> bool {
    l.len() >= 2 && l[0] == c && l[1] == ' '
}

/// The printed lines marked `c1` or `c2`, each without its marker.
pub open spec fn text_side(ls: Seq<Seq<char>>, c1: char, c2: char) -> Seq<Seq<char>>
    decreases ls.len(),
{
    if ls.len() == 0 {
        seq![]
    } else if has_marker(ls[0], c1) || has_marker(ls[0], c2) {
        seq![ls[0].skip(2)] + text_side(ls.drop_first(), c1, c2)
    } else {
        text_side(ls.drop_first(), c1, c2)
    }
}

/// How many printed lines are marked `c`.
pub open spec fn count_marked(ls: Seq<Seq<char>>, c: char) -> nat
    decreases ls.len(),
{
    if ls.len() == 0 {
        0
    } else {
        count_marked(ls.drop_first(), c) + if has_marker(ls[0], c) {
            1nat
        } else {
            0nat
        }
    }
}

/// No text of the diff holds a newline.
pub open spec fn texts_no_newline(d: Seq<DiffLine>) -> bool {
    forall|k: int| 0 <= k < d.len() ==> no_newline(#[trigger] d[k].text)
}

proof fn lemma_diff_texts_no_newline(a: Seq<Seq<char>>, b: Seq<Seq<char>>, i: int, j: int)
    requires
        0 <= i <= a.len(),
        0 <= j <= b.len(),
        forall|x: int| 0 <= x < a.len() ==> no_newline(#[trigger] a[x]),
        forall|y: int| 0 <= y < b.len() ==> no_newline(#[trigger] b[y]),
    ensures
        texts_no_newline(diff_from(a, b, i, j)),
    decreases a.len() - i + b.len() - j,
{
    let d = diff_from(a, b, i, j);
    if i < a.len() || j < b.len() {
        let (ni, nj) = if i < a.len() && j < b.len() {
            if a[i] == b[j] {
                (i + 1, j + 1)
            } else if lcs(a, b, i + 1, j) >= lcs(a, b, i, j + 1) {
                (i + 1, j)
            } else {
                (i, j + 1)
            }
        } else if i < a.len() {
            (i + 1, j)
        } else {
            (i, j + 1)
        };
        lemma_diff_texts_no_newline(a, b, ni, nj);
        let rest = diff_from(a, b, ni, nj);
        assert(d.drop_first() == rest);
        assert(no_newline(d[0].text));
        assert forall|k: int| 0 <= k < d.len() implies no_newline(#[trigger] d[k].text) by {
            if k > 0 {
                assert(d[k] == rest[k - 1]);
            }
        }
    }
}

proof fn lemma_split_render(d: Seq<DiffLine>)
    requires
        texts_no_newline(d),
    ensures
        split_terminated(render(d)) == rendered_lines(d),
    decreases d.len(),
{
    if d.len() == 0 {
        assert(rendered_lines(d) =~= Seq::<Seq<char>>::empty());
    } else {
        let rest = d.drop_first();
        assert(texts_no_newline(rest)) by {
            assert forall|k: int| 0 <= k < rest.len() implies no_newline(#[trigger] rest[k].text) by {
                assert(rest[k] == d[k + 1]);
            }
        }
        lemma_split_render(rest);
        let x = rendered_line(d[0]);
        assert(no_newline(x)) by {
            assert(no_newline(d[0].text));
            assert forall|k: int| 0 <= k < x.len() implies x[k] != '\n' by {
                if k >= 2 {
                    assert(x[k] == d[0].text[k - 2]);
                }
            }
        }
        assert(render(d) =~= x + seq!['\n'] + render(rest));
        lemma_split_terminated_line(x, render(rest), seq![]);
        assert(Seq::<char>::empty() + x =~= x);
        assert(rendered_lines(d) =~= seq![x] + rendered_lines(rest));
    }
}

proof fn lemma_rendered_sides(d: Seq<DiffLine>)
    ensures
        text_side(rendered_lines(d), ' ', '-') == old_side(d),
        text_side(rendered_lines(d), ' ', '+') == new_side(d),
        count_marked(rendered_lines(d), ' ') == kept(d),
        count_marked(rendered_lines(d), '-') == count_kind(d, LineKind::Remove),
        count_marked(rendered_lines(d), '+') == count_kind(d, LineKind::Add),
        kept(d) == count_kind(d, LineKind::Keep),
        old_side(d).len() == kept(d) + count_kind(d, LineKind::Remove),
        new_side(d).len() == kept(d) + count_kind(d, LineKind::Add),
        forall|k: int|
            0 <= k < d.len() ==> has_marker(#[trigger] rendered_lines(d)[k], ' ') || has_marker(
                rendered_lines(d)[k],
                '-',
            ) || has_marker(rendered_lines(d)[k], '+'),
    decreases d.len(),
{
    if d.len() > 0 {
        let rest = d.drop_first();
        lemma_rendered_sides(rest);
        let ls = rendered_lines(d);
        assert(ls.drop_first() =~= rendered_lines(rest));
        let x = ls[0];
        assert(x == marker(d[0].kind) + d[0].text);
        assert(x.skip(2) =~= d[0].text);
        assert forall|k: int|
            0 <= k < d.len() implies has_marker(#[trigger] rendered_lines(d)[k], ' ') || has_marker(
            rendered_lines(d)[k],
            '-',
        ) || has_marker(rendered_lines(d)[k], '+') by {
            if k > 0 {
                assert(rendered_lines(d)[k] == rendered_lines(rest)[k - 1]);
            }
        }
    }
}

proof fn lemma_render_empty_and_end(d: Seq<DiffLine>)
    ensures
        render(d).len() == 0 <==> d.len() == 0,
        d.len() > 0 ==> render(d).last() == '\n',
    decreases d.len(),
{
    if d.len() > 0 {
        lemma_render_empty_and_end(d.drop_first());
        let head = marker(d[0].kind) + d[0].text + seq!['\n'];
        assert(render(d) == head + render(d.drop_first()));
        if d.drop_first().len() == 0 {
            assert(render(d) =~= head);
        }
    }
}

/// Law: the printed diff, read back line by line. Split at its newlines,
/// every line is a marker (`"  "`, `"- "` or `"+ "`) followed by a line of
/// one of the texts; the unchanged and removed lines, markers dropped, are
/// exactly the lines of `from`, the unchanged and added ones exactly the
/// lines of `to`; there are as many unchanged lines as a longest common
/// subsequence has, and all other lines of either text appear as removed or
/// added. The output is empty exactly when both texts have no lines, and
/// otherwise ends with a newline.
pub proof fn law_printed_diff(from: Seq<char>, to: Seq<char>)
    ensures
        ({
            let a = split_lines(from);
            let b = split_lines(to);
            let out = spec_line_diff(from, to);
            let ls = split_terminated(out);
            let k = lcs(a, b, 0, 0);
            &&& ls == rendered_lines(diff_lines(a, b))
            &&& forall|x: int|
                0 <= x < ls.len() ==> has_marker(#[trigger] ls[x], ' ') || has_marker(ls[x], '-')
                    || has_marker(ls[x], '+')
            &&& text_side(ls, ' ', '-') == a
            &&& text_side(ls, ' ', '+') == b
            &&& count_marked(ls, ' ') == k
            &&& count_marked(ls, '-') == a.len() - k
            &&& count_marked(ls, '+') == b.len() - k
            &&& (out.len() == 0 <==> a.len() == 0 && b.len() == 0)
            &&& out.len() > 0 ==> out.last() == '\n'
        }),
{
    let a = split_lines(from);
    let b = split_lines(to);
    let d = diff_lines(a, b);
    lemma_lines_no_newline(from);
    lemma_lines_no_newline(to);
    lemma_diff_texts_no_newline(a, b, 0, 0);
    lemma_split_render(d);
    lemma_rendered_sides(d);
    lemma_sides_from(a, b, 0, 0);
    assert(a.skip(0) == a);
    assert(b.skip(0) == b);
    lemma_render_empty_and_end(d);
    if a.len() == 0 && b.len() == 0 {
        assert(d =~= Seq::<DiffLine>::empty());
    }
    if d.len() == 0 {
        assert(old_side(d) =~= Seq::<Seq<char>>::empty());
        assert(new_side(d) =~= Seq::<Seq<char>>::empty());
    }
}

/// Show a line diff between two texts (`"  "` unchanged, `"- "` removed,
/// `"+ "` added), one output line per input line, each ending in a newline.
pub fn line_diff(from: &str, to: &str) -> (r: String)
    ensures
        r@ == spec_line_diff(from@, to@),
{
    let a = lines(from);
    let b = lines(to);
    let ghost av = a.deep_view();
    let ghost bv = b.deep_view();
    let n = a.len();
    let m = b.len();
    assert(av.len() == n && bv.len() == m);
    let table = lcs_table(&a, &b);
    let mut out = String::new();
    let mut i: usize = 0;
    let mut j: usize = 0;
    assert(out@ + render(diff_from(av, bv, 0, 0)) =~= render(diff_from(av, bv, 0, 0)));
    while i < n || j < m
        invariant
            av == a.deep_view(),
            bv == b.deep_view(),
            n == av.len(),
            m == bv.len(),
            i <= n,
            j <= m,
            table@.len() == n + 1,
            forall|k: int| 0 <= k <= n ==> #[trigger] table@[k]@.len() == m + 1,
            forall|k: int, l: int|
                0 <= k <= n && 0 <= l <= m ==> #[trigger] table@[k]@[l] == lcs(av, bv, k, l),
            out@ + render(diff_from(av, bv, i as int, j as int)) == render(
                diff_from(av, bv, 0, 0),
            ),
        decreases n - i + m - j,
    {
        let ghost d = diff_from(av, bv, i as int, j as int);
        let ghost before = out@;
        proof {
            reveal_strlit("  ");
            reveal_strlit("- ");
            reveal_strlit("+ ");
            reveal_strlit("\n");
        }
        if i < n && j < m {
            assert(av[i as int] == a@[i as int]@);
            assert(bv[j as int] == b@[j as int]@);
            if a[i] == b[j] {
                out.append("  ");
                out.append(a[i].as_str());
                out.append("\n");
                i = i + 1;
                j = j + 1;
            } else if table[i + 1][j] >= table[i][j + 1] {
                out.append("- ");
                out.append(a[i].as_str());
                out.append("\n");
                i = i + 1;
            } else {
                out.append("+ ");
                out.append(b[j].as_str());
                out.append("\n");
                j = j + 1;
            }
        } else if i < n {
            assert(av[i as int] == a@[i as int]@);
            out.append("- ");
            out.append(a[i].as_str());
            out.append("\n");
            i = i + 1;
        } else {
            assert(bv[j as int] == b@[j as int]@);
            out.append("+ ");
            out.append(b[j].as_str());
            out.append("\n");
            j = j + 1;
        }
        let ghost rest = diff_from(av, bv, i as int, j as int);
        assert(d.drop_first() =~= rest);
        assert(render(d) == marker(d[0].kind) + d[0].text + seq!['\n'] + render(rest));
        assert(out@ + render(rest) =~= before + render(d));
    }
    out
}

/// `table[k][l]` is the LCS length of `a[k..]` and `b[l..]`.
fn lcs_table(a: &Vec<String>, b: &Vec<String>) -> (table: Vec<Vec<usize>>)
    ensures
        table@.len() == a@.len() + 1,
        forall|k: int| 0 <= k <= a@.len() ==> #[trigger] table@[k]@.len() == b@.len() + 1,
        forall|k: int, l: int|
            0 <= k <= a@.len() && 0 <= l <= b@.len() ==> #[trigger] table@[k]@[l] == lcs(
                a.deep_view(),
                b.deep_view(),
                k,
                l,
            ),
{
    let ghost av = a.deep_view();
    let ghost bv = b.deep_view();
    let n = a.len();
    let m = b.len();
    // rows[t] holds the row for k == n - t, built from the bottom up.
    let mut rows: Vec<Vec<usize>> = Vec::new();
    let mut last: Vec<usize> = Vec::new();
    let mut l: usize = 0;
    while l < m
        invariant
            l <= m,
            m == bv.len(),
            last@.len() == l,
            forall|x: int| 0 <= x < l ==> #[trigger] last@[x] == 0,
        decreases m - l,
    {
        last.push(0);
        l = l + 1;
    }
    last.push(0);
    assert forall|x: int| 0 <= x <= m implies #[trigger] last@[x] == lcs(av, bv, n as int, x) by {
        assert(last@[x] == 0);
    }
    rows.push(last);
    let mut k: usize = n;
    while k > 0
        invariant
            k <= n,
            n == av.len(),
            m == bv.len(),
            av == a.deep_view(),
            bv == b.deep_view(),
            rows@.len() == n - k + 1,
            forall|t: int| 0 <= t < rows@.len() ==> #[trigger] rows@[t]@.len() == m + 1,
            forall|t: int, x: int|
                0 <= t < rows@.len() && 0 <= x <= m ==> #[trigger] rows@[t]@[x] == lcs(
                    av,
                    bv,
                    n - t,
                    x,
                ),
        decreases k,
    {
        let i = k - 1;
        let below = &rows[n - k];
        assert(forall|x: int| 0 <= x <= m ==> below@[x] == lcs(av, bv, k as int, x));
        let mut row: Vec<usize> = Vec::new();
        let mut x: usize = 0;
        while x < m
            invariant
                x <= m,
                row@.len() == x,
                forall|y: int| 0 <= y < x ==> #[trigger] row@[y] == 0,
            decreases m - x,
        {
            row.push(0);
            x = x + 1;
        }
        row.push(0);
        proof {
            lemma_lcs_bounded(av, bv, i as int, m as int);
        }
        let mut j: usize = m;
        while j > 0
            invariant
                j <= m,
                i < n,
                n == av.len(),
                m == bv.len(),
                av == a.deep_view(),
                bv == b.deep_view(),
                row@.len() == m + 1,
                below@.len() == m + 1,
                forall|x: int| 0 <= x <= m ==> #[trigger] below@[x] == lcs(av, bv, i + 1, x),
                forall|x: int| j <= x <= m ==> #[trigger] row@[x] == lcs(av, bv, i as int, x),
            decreases j,
        {
            let jj = j - 1;
            proof {
                lemma_lcs_bounded(av, bv, i as int, jj as int);
                lemma_lcs_bounded(av, bv, i + 1, jj + 1);
            }
            assert(av[i as int] == a@[i as int]@);
            assert(bv[jj as int] == b@[jj as int]@);
            let v = if a[i] == b[jj] {
                below[jj + 1] + 1
            } else if below[jj] >= row[jj + 1] {
                below[jj]
            } else {
                row[jj + 1]
            };
            row.set(jj, v);
            j = jj;
        }
        rows.push(row);
        k = i;
    }
    // Popping yields the rows top-down (k == 0 first).
    let mut table: Vec<Vec<usize>> = Vec::new();
    while rows.len() > 0
        invariant
            n == av.len(),
            m == bv.len(),
            av == a.deep_view(),
            bv == b.deep_view(),
            rows@.len() + table@.len() == n + 1,
            forall|s: int| 0 <= s < rows@.len() ==> #[trigger] rows@[s]@.len() == m + 1,
            forall|s: int, x: int|
                0 <= s < rows@.len() && 0 <= x <= m ==> #[trigger] rows@[s]@[x] == lcs(
                    av,
                    bv,
                    n - s,
                    x,
                ),
            forall|q: int| 0 <= q < table@.len() ==> #[trigger] table@[q]@.len() == m + 1,
            forall|q: int, x: int|
                0 <= q < table@.len() && 0 <= x <= m ==> #[trigger] table@[q]@[x] == lcs(
                    av,
                    bv,
                    q,
                    x,
                ),
        decreases rows@.len(),
    {
        let row = rows.pop().unwrap();
        table.push(row);
    }
    table
}

} // verus!
