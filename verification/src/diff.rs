//! Line splitting and the line-by-line diff.

use vstd::prelude::*;
use crate::text::{chars_of, push_char};

verus! {

/// Position of the first `'\n'` in `s`, or `s.len()` when there is none.
pub open spec fn line_end(s: Seq<char>) -> nat
    decreases s.len(),
{
    if s.len() == 0 {
        0
    } else if s[0] == '\n' {
        0
    } else {
        1 + line_end(s.drop_first())
    }
}

/// `l` without one trailing carriage return.
pub open spec fn strip_cr(l: Seq<char>) -> Seq<char> {
    if l.len() > 0 && l.last() == '\r' {
        l.drop_last()
    } else {
        l
    }
}

/// The lines of `s`, as `str::lines` gives them: split at `"\n"` or
/// `"\r\n"`, terminators not included, the final terminator optional.
pub open spec fn lines(s: Seq<char>) -> Seq<Seq<char>>
    decreases s.len(),
{
    if s.len() == 0 {
        seq![]
    } else if line_end(s) >= s.len() {
        seq![s]
    } else {
        seq![strip_cr(s.take(line_end(s) as int))] + lines(s.skip(line_end(s) + 1int))
    }
}

/// `line_end(s)` is the first position holding a newline, or the length.
pub proof fn lemma_line_end(s: Seq<char>, k: int)
    requires
        0 <= k <= s.len(),
        forall|m: int| 0 <= m < k ==> s[m] != '\n',
        k == s.len() || s[k] == '\n',
    ensures
        line_end(s) == k,
    decreases k,
{
    if k > 0 {
        lemma_line_end(s.drop_first(), k - 1);
    }
}

/// One line of a diff: `prefix` followed by `l`.
pub open spec fn tagged(prefix: char, l: Seq<char>) -> Seq<char> {
    seq![prefix] + l
}

/// The diff lines for position `i`: a kept line, a removed and an added
/// line, or a line only one side has.
pub open spec fn diff_entry(la: Seq<Seq<char>>, lb: Seq<Seq<char>>, i: int) -> Seq<Seq<char>> {
    if i < la.len() && i < lb.len() {
        if la[i] == lb[i] {
            seq![tagged(' ', la[i])]
        } else {
            seq![tagged('-', la[i]), tagged('+', lb[i])]
        }
    } else if i < la.len() {
        seq![tagged('-', la[i])]
    } else if i < lb.len() {
        seq![tagged('+', lb[i])]
    } else {
        seq![]
    }
}

/// The diff lines for positions `0..n`.
pub open spec fn diff_upto(la: Seq<Seq<char>>, lb: Seq<Seq<char>>, n: nat) -> Seq<Seq<char>>
    decreases n,
{
    if n == 0 {
        seq![]
    } else {
        diff_upto(la, lb, (n - 1) as nat) + diff_entry(la, lb, n - 1)
    }
}

/// The larger of two lengths.
pub open spec fn max_len(x: nat, y: nat) -> nat {
    if x >= y {
        x
    } else {
        y
    }
}

/// The diff lines of two sequences of lines, compared position by position.
pub open spec fn diff_lines(la: Seq<Seq<char>>, lb: Seq<Seq<char>>) -> Seq<Seq<char>> {
    diff_upto(la, lb, max_len(la.len(), lb.len()))
}

/// Lines joined into text, each one followed by `'\n'`.
pub open spec fn render(ls: Seq<Seq<char>>) -> Seq<char>
    decreases ls.len(),
{
    if ls.len() == 0 {
        seq![]
    } else {
        render(ls.drop_last()) + ls.last() + seq!['\n']
    }
}

/// The text that [`make_diff`] returns for texts `a` and `b`.
pub open spec fn make_diff_spec(a: Seq<char>, b: Seq<char>) -> Seq<char> {
    render(diff_lines(lines(a), lines(b)))
}

/// Start and end (exclusive) of each line of `v`, as [`lines`] splits it.
pub(crate) fn line_ranges(v: &Vec<char>) -> (r: Vec<(usize, usize)>)
    ensures
        r.len() == lines(v@).len(),
        forall|k: int|
            0 <= k < r.len() ==> {
                &&& (#[trigger] r@[k]).0 <= r@[k].1 <= v.len()
                &&& v@.subrange(r@[k].0 as int, r@[k].1 as int) == lines(v@)[k]
            },
{
    let n = v.len();
    let mut r: Vec<(usize, usize)> = Vec::new();
    let ghost mut done: Seq<Seq<char>> = seq![];
    let mut p: usize = 0;
    assert(v@.subrange(0, n as int) =~= v@);
    while p < n
        invariant
            p <= n == v.len(),
            lines(v@) == done + lines(v@.subrange(p as int, n as int)),
            done.len() == r.len(),
            forall|k: int|
                0 <= k < r.len() ==> {
                    &&& (#[trigger] r@[k]).0 <= r@[k].1 <= v.len()
                    &&& v@.subrange(r@[k].0 as int, r@[k].1 as int) == done[k]
                },
        decreases n - p,
    {
        let ghost s = v@.subrange(p as int, n as int);
        let mut q = p;
        while q < n && v[q] != '\n'
            invariant
                p <= q <= n == v.len(),
                forall|m: int| p <= m < q ==> v@[m] != '\n',
            decreases n - q,
        {
            q = q + 1;
        }
        proof {
            lemma_line_end(s, q - p);
        }
        if q == n {
            r.push((p, n));
            proof {
                assert(lines(s) == seq![s]);
                assert(lines(v@.subrange(n as int, n as int)) =~= seq![]);
                done = done.push(s);
                assert(lines(v@) =~= done + lines(v@.subrange(n as int, n as int)));
            }
            p = n;
        } else {
            let end = if q > p && v[q - 1] == '\r' {
                q - 1
            } else {
                q
            };
            r.push((p, end));
            proof {
                let l = s.take(q - p);
                assert(v@.subrange(p as int, end as int) =~= strip_cr(l));
                assert(s.skip(q - p + 1) =~= v@.subrange(q + 1, n as int));
                assert(lines(s) == seq![strip_cr(l)] + lines(s.skip(q - p + 1)));
                done = done.push(strip_cr(l));
                assert(lines(v@) =~= done + lines(v@.subrange(q + 1, n as int)));
            }
            p = q + 1;
        }
    }
    proof {
        assert(lines(v@.subrange(n as int, n as int)) =~= seq![]);
        assert(lines(v@) =~= done);
    }
    r
}

/// Rendering one more line appends it and a newline.
pub proof fn lemma_render_push(x: Seq<Seq<char>>, l: Seq<char>)
    ensures
        render(x.push(l)) == render(x) + l + seq!['\n'],
{
    assert(x.push(l).drop_last() =~= x);
}

/// Whether `va[fa..ta]` and `vb[fb..tb]` hold the same characters.
fn ranges_equal(va: &Vec<char>, fa: usize, ta: usize, vb: &Vec<char>, fb: usize, tb: usize) -> (eq:
    bool)
    requires
        fa <= ta <= va.len(),
        fb <= tb <= vb.len(),
    ensures
        eq == (va@.subrange(fa as int, ta as int) == vb@.subrange(fb as int, tb as int)),
{
    if ta - fa != tb - fb {
        assert(va@.subrange(fa as int, ta as int).len() != vb@.subrange(fb as int, tb as int).len());
        return false;
    }
    let len = ta - fa;
    let ghost sa = va@.subrange(fa as int, ta as int);
    let ghost sb = vb@.subrange(fb as int, tb as int);
    let mut k: usize = 0;
    while k < len
        invariant
            k <= len == ta - fa == tb - fb,
            fa <= ta <= va.len(),
            fb <= tb <= vb.len(),
            sa == va@.subrange(fa as int, ta as int),
            sb == vb@.subrange(fb as int, tb as int),
            forall|m: int| 0 <= m < k ==> #[trigger] sa[m] == sb[m],
        decreases len - k,
    {
        if va[fa + k] != vb[fb + k] {
            assert(sa[k as int] != sb[k as int]);
            return false;
        }
        k = k + 1;
    }
    assert(sa =~= sb);
    true
}

/// Appends `prefix`, then `v[from..to]`, then a newline.
fn push_line(out: &mut String, prefix: char, v: &Vec<char>, from: usize, to: usize)
    requires
        from <= to <= v.len(),
    ensures
        final(out)@ == old(out)@ + tagged(prefix, v@.subrange(from as int, to as int)) + seq!['\n'],
{
    let ghost start = out@;
    push_char(out, prefix);
    let mut k = from;
    while k < to
        invariant
            from <= k <= to <= v.len(),
            out@ == start + seq![prefix] + v@.subrange(from as int, k as int),
        decreases to - k,
    {
        push_char(out, v[k]);
        assert(v@.subrange(from as int, k + 1) =~= v@.subrange(from as int, k as int).push(v@[k as int]));
        k = k + 1;
    }
    push_char(out, '\n');
    assert(out@ =~= start + tagged(prefix, v@.subrange(from as int, to as int)) + seq!['\n']);
}

/// Produce a simple line-by-line diff between two strings.
///
/// Lines unique to `a` are prefixed with `-`, lines unique to `b` with `+`,
/// and matching lines with a space.
pub fn make_diff(a: &str, b: &str) -> (result: String)
    ensures
        result@ == make_diff_spec(a@, b@),
{
    let va = chars_of(a);
    let vb = chars_of(b);
    let ra = line_ranges(&va);
    let rb = line_ranges(&vb);
    let ghost la = lines(a@);
    let ghost lb = lines(b@);
    let max = if ra.len() >= rb.len() {
        ra.len()
    } else {
        rb.len()
    };
    let mut result = String::new();
    let mut i: usize = 0;
    while i < max
        invariant
            i <= max == max_len(la.len(), lb.len()),
            la == lines(va@),
            lb == lines(vb@),
            ra.len() == la.len(),
            rb.len() == lb.len(),
            forall|k: int|
                0 <= k < ra.len() ==> {
                    &&& (#[trigger] ra@[k]).0 <= ra@[k].1 <= va.len()
                    &&& va@.subrange(ra@[k].0 as int, ra@[k].1 as int) == la[k]
                },
            forall|k: int|
                0 <= k < rb.len() ==> {
                    &&& (#[trigger] rb@[k]).0 <= rb@[k].1 <= vb.len()
                    &&& vb@.subrange(rb@[k].0 as int, rb@[k].1 as int) == lb[k]
                },
            result@ == render(diff_upto(la, lb, i as nat)),
        decreases max - i,
    {
        let ghost before = diff_upto(la, lb, i as nat);
        if i < ra.len() && i < rb.len() {
            let (fa, ta) = ra[i];
            let (fb, tb) = rb[i];
            let ghost _ga = ra@[i as int];
            let ghost _gb = rb@[i as int];
            if ranges_equal(&va, fa, ta, &vb, fb, tb) {
                push_line(&mut result, ' ', &va, fa, ta);
                proof {
                    assert(before + diff_entry(la, lb, i as int) =~= before.push(tagged(' ', la[i as int])));
                    lemma_render_push(before, tagged(' ', la[i as int]));
                }
            } else {
                push_line(&mut result, '-', &va, fa, ta);
                push_line(&mut result, '+', &vb, fb, tb);
                proof {
                    let t1 = tagged('-', la[i as int]);
                    let t2 = tagged('+', lb[i as int]);
                    assert(before + diff_entry(la, lb, i as int) =~= before.push(t1).push(t2));
                    lemma_render_push(before, t1);
                    lemma_render_push(before.push(t1), t2);
                }
            }
        } else if i < ra.len() {
            let (fa, ta) = ra[i];
            let ghost _ga = ra@[i as int];
            push_line(&mut result, '-', &va, fa, ta);
            proof {
                assert(before + diff_entry(la, lb, i as int) =~= before.push(tagged('-', la[i as int])));
                lemma_render_push(before, tagged('-', la[i as int]));
            }
        } else {
            let (fb, tb) = rb[i];
            let ghost _gb = rb@[i as int];
            push_line(&mut result, '+', &vb, fb, tb);
            proof {
                assert(before + diff_entry(la, lb, i as int) =~= before.push(tagged('+', lb[i as int])));
                lemma_render_push(before, tagged('+', lb[i as int]));
            }
        }
        i = i + 1;
    }
    result
}

/// Whether diff line `l` starts with `c`.
pub open spec fn starts_with(l: Seq<char>, c: char) -> bool {
    l.len() > 0 && l[0] == c
}

/// The lines of the first text that a diff records: its kept (`' '`) and
/// removed (`'-'`) lines, with the marker taken off.
pub open spec fn old_side(ls: Seq<Seq<char>>) -> Seq<Seq<char>>
    decreases ls.len(),
{
    if ls.len() == 0 {
        seq![]
    } else if starts_with(ls.last(), ' ') || starts_with(ls.last(), '-') {
        old_side(ls.drop_last()).push(ls.last().drop_first())
    } else {
        old_side(ls.drop_last())
    }
}

/// The lines of the second text that a diff records: its kept (`' '`) and
/// added (`'+'`) lines, with the marker taken off.
pub open spec fn new_side(ls: Seq<Seq<char>>) -> Seq<Seq<char>>
    decreases ls.len(),
{
    if ls.len() == 0 {
        seq![]
    } else if starts_with(ls.last(), ' ') || starts_with(ls.last(), '+') {
        new_side(ls.drop_last()).push(ls.last().drop_first())
    } else {
        new_side(ls.drop_last())
    }
}

proof fn lemma_old_side_push(x: Seq<Seq<char>>, t: Seq<char>)
    ensures
        old_side(x.push(t)) == if starts_with(t, ' ') || starts_with(t, '-') {
            old_side(x).push(t.drop_first())
        } else {
            old_side(x)
        },
{
    assert(x.push(t).drop_last() =~= x);
}

proof fn lemma_new_side_push(x: Seq<Seq<char>>, t: Seq<char>)
    ensures
        new_side(x.push(t)) == if starts_with(t, ' ') || starts_with(t, '+') {
            new_side(x).push(t.drop_first())
        } else {
            new_side(x)
        },
{
    assert(x.push(t).drop_last() =~= x);
}

/// The smaller of `n` and `len`.
pub open spec fn min_len(n: nat, len: nat) -> int {
    if n <= len {
        n as int
    } else {
        len as int
    }
}

proof fn lemma_sides_upto(la: Seq<Seq<char>>, lb: Seq<Seq<char>>, n: nat)
    ensures
        old_side(diff_upto(la, lb, n)) == la.take(min_len(n, la.len())),
        new_side(diff_upto(la, lb, n)) == lb.take(min_len(n, lb.len())),
    decreases n,
{
    if n == 0 {
        assert(la.take(0) =~= seq![]);
        assert(lb.take(0) =~= seq![]);
    } else {
        let m = (n - 1) as nat;
        let i = m as int;
        lemma_sides_upto(la, lb, m);
        let before = diff_upto(la, lb, m);
        let d = diff_upto(la, lb, n);
        assert(d == before + diff_entry(la, lb, i));
        if i < la.len() {
            assert(la.take(i).push(la[i]) =~= la.take(min_len(n, la.len())));
        } else {
            assert(la.take(min_len(m, la.len())) =~= la.take(min_len(n, la.len())));
        }
        if i < lb.len() {
            assert(lb.take(i).push(lb[i]) =~= lb.take(min_len(n, lb.len())));
        } else {
            assert(lb.take(min_len(m, lb.len())) =~= lb.take(min_len(n, lb.len())));
        }
        if i < la.len() && i < lb.len() {
            if la[i] == lb[i] {
                let t = tagged(' ', la[i]);
                assert(d =~= before.push(t));
                assert(t.drop_first() =~= la[i]);
                lemma_old_side_push(before, t);
                lemma_new_side_push(before, t);
            } else {
                let t1 = tagged('-', la[i]);
                let t2 = tagged('+', lb[i]);
                assert(d =~= before.push(t1).push(t2));
                assert(t1.drop_first() =~= la[i]);
                assert(t2.drop_first() =~= lb[i]);
                lemma_old_side_push(before, t1);
                lemma_old_side_push(before.push(t1), t2);
                lemma_new_side_push(before, t1);
                lemma_new_side_push(before.push(t1), t2);
            }
        } else if i < la.len() {
            let t = tagged('-', la[i]);
            assert(d =~= before.push(t));
            assert(t.drop_first() =~= la[i]);
            lemma_old_side_push(before, t);
            lemma_new_side_push(before, t);
        } else if i < lb.len() {
            let t = tagged('+', lb[i]);
            assert(d =~= before.push(t));
            assert(t.drop_first() =~= lb[i]);
            lemma_old_side_push(before, t);
            lemma_new_side_push(before, t);
        } else {
            assert(d =~= before);
        }
    }
}

/// A diff loses nothing: its kept and removed lines, in order and without
/// their markers, are the lines of the first text, and its kept and added
/// lines are those of the second.
pub proof fn lemma_diff_recovers_both_sides(la: Seq<Seq<char>>, lb: Seq<Seq<char>>)
    ensures
        old_side(diff_lines(la, lb)) == la,
        new_side(diff_lines(la, lb)) == lb,
{
    lemma_sides_upto(la, lb, max_len(la.len(), lb.len()));
    assert(la.take(la.len() as int) =~= la);
    assert(lb.take(lb.len() as int) =~= lb);
}

/// Every line of a diff starts with a space, `-` or `+`.
pub proof fn lemma_diff_lines_are_marked(la: Seq<Seq<char>>, lb: Seq<Seq<char>>, k: int)
    requires
        0 <= k < diff_lines(la, lb).len(),
    ensures
        starts_with(diff_lines(la, lb)[k], ' ') || starts_with(diff_lines(la, lb)[k], '-')
            || starts_with(diff_lines(la, lb)[k], '+'),
{
    lemma_marked_upto(la, lb, max_len(la.len(), lb.len()), k);
}

proof fn lemma_marked_upto(la: Seq<Seq<char>>, lb: Seq<Seq<char>>, n: nat, k: int)
    requires
        0 <= k < diff_upto(la, lb, n).len(),
    ensures
        starts_with(diff_upto(la, lb, n)[k], ' ') || starts_with(diff_upto(la, lb, n)[k], '-')
            || starts_with(diff_upto(la, lb, n)[k], '+'),
    decreases n,
{
    if n > 0 {
        let m = (n - 1) as nat;
        let before = diff_upto(la, lb, m);
        if k < before.len() {
            lemma_marked_upto(la, lb, m, k);
        }
    }
}

/// Comparing a text with itself keeps every line: the diff is each line
/// with a leading space, and nothing is marked removed or added.
pub proof fn lemma_diff_of_identical(l: Seq<Seq<char>>)
    ensures
        diff_lines(l, l) == Seq::new(l.len(), |i: int| tagged(' ', l[i])),
{
    lemma_identical_upto(l, l.len());
}

proof fn lemma_identical_upto(l: Seq<Seq<char>>, n: nat)
    requires
        n <= l.len(),
    ensures
        diff_upto(l, l, n) == Seq::new(n, |i: int| tagged(' ', l[i])),
    decreases n,
{
    if n == 0 {
        assert(diff_upto(l, l, n) =~= Seq::new(n, |i: int| tagged(' ', l[i])));
    } else {
        let m = (n - 1) as nat;
        lemma_identical_upto(l, m);
        assert(diff_upto(l, l, n) =~= Seq::new(n, |i: int| tagged(' ', l[i])));
    }
}

proof fn lemma_upto_prefix(la: Seq<Seq<char>>, lb: Seq<Seq<char>>, n: nat, m: nat)
    requires
        n <= m,
    ensures
        diff_upto(la, lb, n).len() <= diff_upto(la, lb, m).len(),
        diff_upto(la, lb, m).take(diff_upto(la, lb, n).len() as int) == diff_upto(la, lb, n),
    decreases m,
{
    if n == m {
        assert(diff_upto(la, lb, m).take(diff_upto(la, lb, n).len() as int) =~= diff_upto(la, lb, n));
    } else {
        let p = (m - 1) as nat;
        lemma_upto_prefix(la, lb, n, p);
        let x = diff_upto(la, lb, p);
        let e = diff_entry(la, lb, p as int);
        assert(diff_upto(la, lb, m) == x + e);
        assert((x + e).take(diff_upto(la, lb, n).len() as int) =~= x.take(
            diff_upto(la, lb, n).len() as int,
        ));
    }
}

/// Each position is compared on its own, whatever came before it. When line
/// `i` of both texts is the same, the diff keeps it, marked with a space, at
/// the point where exactly the first `i` lines of each text are recorded;
/// when they differ, the diff removes the first text's line and adds the
/// second's there, in that order.
pub proof fn lemma_each_position_on_its_own(la: Seq<Seq<char>>, lb: Seq<Seq<char>>, i: int)
    requires
        0 <= i < la.len(),
        i < lb.len(),
    ensures
        exists|k: int|
            {
                let d = #[trigger] diff_lines(la, lb).take(k);
                &&& 0 <= k
                &&& old_side(d) == la.take(i)
                &&& new_side(d) == lb.take(i)
                &&& (la[i] == lb[i] ==> k < diff_lines(la, lb).len() && diff_lines(la, lb)[k]
                    == seq![' '] + la[i])
                &&& (la[i] != lb[i] ==> k + 1 < diff_lines(la, lb).len() && diff_lines(la, lb)[k]
                    == seq!['-'] + la[i] && diff_lines(la, lb)[k + 1] == seq!['+'] + lb[i])
            },
{
    let n = max_len(la.len(), lb.len());
    let before = diff_upto(la, lb, i as nat);
    let k = before.len() as int;
    lemma_upto_prefix(la, lb, i as nat, n);
    lemma_upto_prefix(la, lb, (i + 1) as nat, n);
    lemma_sides_upto(la, lb, i as nat);
    let d = diff_lines(la, lb);
    let next = diff_upto(la, lb, (i + 1) as nat);
    assert(next == before + diff_entry(la, lb, i));
    assert(d.take(k) == before);
    assert(d.take(next.len() as int) == next);
    assert(min_len(i as nat, la.len()) == i);
    assert(min_len(i as nat, lb.len()) == i);
    if la[i] == lb[i] {
        assert(next[k] == tagged(' ', la[i]));
        assert(d.take(next.len() as int)[k] == d[k]);
    } else {
        assert(next[k] == tagged('-', la[i]));
        assert(next[k + 1] == tagged('+', lb[i]));
        assert(d.take(next.len() as int)[k] == d[k]);
        assert(d.take(next.len() as int)[k + 1] == d[k + 1]);
    }
    assert({
        let dk = diff_lines(la, lb).take(k);
        &&& 0 <= k
        &&& old_side(dk) == la.take(i)
        &&& new_side(dk) == lb.take(i)
        &&& (la[i] == lb[i] ==> k < diff_lines(la, lb).len() && diff_lines(la, lb)[k] == seq![' ']
            + la[i])
        &&& (la[i] != lb[i] ==> k + 1 < diff_lines(la, lb).len() && diff_lines(la, lb)[k]
            == seq!['-'] + la[i] && diff_lines(la, lb)[k + 1] == seq!['+'] + lb[i])
    });
}

} // verus!
