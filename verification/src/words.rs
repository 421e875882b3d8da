//! Splitting command lines into words.

use vstd::prelude::*;
use crate::text::{
    chars_of, is_whitespace, is_ws, join, push_char, string_of_range, trim, trim_bounds, trim_end,
    trim_start,
};

verus! {

/// The contents of a sequence of strings.
pub open spec fn strings_view(v: Seq<String>) -> Seq<Seq<char>> {
    v.map_values(|w: String| w@)
}

/// State of the quote-aware word scanner.
pub struct WordScan {
    /// Words completed so far.
    pub words: Seq<Seq<char>>,
    /// The word being built.
    pub current: Seq<char>,
    /// Whether the scanner is inside a quoted stretch.
    pub in_quote: bool,
    /// The quote character that opened that stretch.
    pub quote: char,
}

/// The scanner before it has read anything.
pub open spec fn scan_start() -> WordScan {
    WordScan { words: seq![], current: seq![], in_quote: false, quote: ' ' }
}

/// The scanner after reading one more character `c`.
///
/// Inside quotes every character but the closing quote belongs to the word;
/// outside, a `"` or `'` opens a quoted stretch, a space ends the word (if
/// any) and every other character belongs to the word.
pub open spec fn scan_step(st: WordScan, c: char) -> WordScan {
    if st.in_quote {
        if c == st.quote {
            WordScan { in_quote: false, ..st }
        } else {
            WordScan { current: st.current.push(c), ..st }
        }
    } else if c == '"' || c == '\'' {
        WordScan { in_quote: true, quote: c, ..st }
    } else if c == ' ' {
        if st.current.len() > 0 {
            WordScan { words: st.words.push(st.current), current: seq![], ..st }
        } else {
            st
        }
    } else {
        WordScan { current: st.current.push(c), ..st }
    }
}

/// The scanner after reading all of `s`, starting from `st`.
pub open spec fn scan(st: WordScan, s: Seq<char>) -> WordScan
    decreases s.len(),
{
    if s.len() == 0 {
        st
    } else {
        scan_step(scan(st, s.drop_last()), s.last())
    }
}

/// The words of a finished scan: the completed words and the last one, if any.
pub open spec fn finish(st: WordScan) -> Seq<Seq<char>> {
    if st.current.len() > 0 {
        st.words.push(st.current)
    } else {
        st.words
    }
}

/// The words of `s`: split on spaces, with `"…"` and `'…'` grouping (the
/// quotes themselves are dropped), after trimming whitespace at both ends.
pub open spec fn shell_words_spec(s: Seq<char>) -> Seq<Seq<char>> {
    finish(scan(scan_start(), trim(s)))
}

/// Simple word splitting on spaces (respects quotes).
///
/// Handles double and single quotes but does not support escape characters.
pub fn shell_words(s: &str) -> (words: Vec<String>)
    ensures
        strings_view(words@) == shell_words_spec(s@),
{
    let v = chars_of(s);
    let (i, j) = trim_bounds(&v);
    let ghost t = v@.subrange(i as int, j as int);
    let mut words: Vec<String> = Vec::new();
    if i == j {
        assert(strings_view(words@) =~= seq![]);
        return words;
    }
    let mut current = String::new();
    let mut in_quote = false;
    let mut quote_char = ' ';
    let mut k = i;
    assert(t.take(0) =~= seq![]);
    while k < j
        invariant
            i <= k <= j <= v.len(),
            t == v@.subrange(i as int, j as int),
            scan(scan_start(), t.take(k - i)).words == strings_view(words@),
            scan(scan_start(), t.take(k - i)).current == current@,
            scan(scan_start(), t.take(k - i)).in_quote == in_quote,
            scan(scan_start(), t.take(k - i)).quote == quote_char,
        decreases j - k,
    {
        let c = v[k];
        proof {
            assert(t.take(k + 1 - i).drop_last() =~= t.take(k - i));
            assert(t.take(k + 1 - i).last() == c);
        }
        if in_quote {
            if c == quote_char {
                in_quote = false;
            } else {
                push_char(&mut current, c);
            }
        } else if c == '"' || c == '\'' {
            in_quote = true;
            quote_char = c;
        } else if c == ' ' {
            if current.as_str().is_empty() {
            } else {
                let ghost old_words = words@;
                words.push(current);
                current = String::new();
                assert(strings_view(words@) =~= strings_view(old_words).push(
                    strings_view(words@).last(),
                ));
            }
        } else {
            push_char(&mut current, c);
        }
        k = k + 1;
    }
    assert(t.take(j - i) =~= t);
    if !current.as_str().is_empty() {
        let ghost old_words = words@;
        words.push(current);
        assert(strings_view(words@) =~= strings_view(old_words).push(strings_view(words@).last()));
    }
    words
}

/// A word that splitting hands back unchanged: not empty, and holding no
/// whitespace and no quote characters.
pub open spec fn plain_word(w: Seq<char>) -> bool {
    &&& w.len() > 0
    &&& forall|i: int| 0 <= i < w.len() ==> plain_char(#[trigger] w[i])
}

/// A character that is neither whitespace nor a quote.
pub open spec fn plain_char(c: char) -> bool {
    !is_ws(c) && c != '"' && c != '\''
}

/// Scanning `x + y` is scanning `x`, then `y`.
pub proof fn lemma_scan_concat(st: WordScan, x: Seq<char>, y: Seq<char>)
    ensures
        scan(st, x + y) == scan(scan(st, x), y),
    decreases y.len(),
{
    if y.len() == 0 {
        assert(x + y =~= x);
    } else {
        assert((x + y).drop_last() =~= x + y.drop_last());
        assert((x + y).last() == y.last());
        lemma_scan_concat(st, x, y.drop_last());
    }
}

/// Outside quotes, plain characters just extend the current word.
proof fn lemma_scan_plain(st: WordScan, w: Seq<char>)
    requires
        !st.in_quote,
        forall|i: int| 0 <= i < w.len() ==> plain_char(#[trigger] w[i]),
    ensures
        scan(st, w) == (WordScan { current: st.current + w, ..st }),
    decreases w.len(),
{
    if w.len() == 0 {
        assert(st.current + w =~= st.current);
    } else {
        assert forall|i: int| 0 <= i < w.drop_last().len() implies plain_char(
            #[trigger] w.drop_last()[i],
        ) by {
            assert(w.drop_last()[i] == w[i]);
        }
        lemma_scan_plain(st, w.drop_last());
        assert(plain_char(w[w.len() - 1]));
        assert((st.current + w.drop_last()).push(w.last()) =~= st.current + w);
    }
}

proof fn lemma_join_ends(ws: Seq<Seq<char>>)
    requires
        ws.len() > 0,
        forall|k: int| 0 <= k < ws.len() ==> plain_word(#[trigger] ws[k]),
    ensures
        join(ws, " "@).len() > 0,
        join(ws, " "@)[0] == ws[0][0],
        join(ws, " "@).last() == ws.last().last(),
        scan(scan_start(), join(ws, " "@)) == (WordScan {
            words: ws.drop_last(),
            current: ws.last(),
            in_quote: false,
            quote: ' ',
        }),
    decreases ws.len(),
{
    reveal_strlit(" ");
    let w = ws.last();
    assert(plain_word(w));
    if ws.len() == 1 {
        assert(plain_word(ws[0]));
        lemma_scan_plain(scan_start(), w);
        assert(seq![] + w =~= w);
        assert(ws.drop_last() =~= seq![]);
    } else {
        let front = ws.drop_last();
        assert forall|k: int| 0 <= k < front.len() implies plain_word(#[trigger] front[k]) by {
            assert(front[k] == ws[k]);
        }
        lemma_join_ends(front);
        let j = join(front, " "@);
        assert(join(ws, " "@) == j + " "@ + w);
        lemma_scan_concat(scan_start(), j + " "@, w);
        lemma_scan_concat(scan_start(), j, " "@);
        assert(" "@ =~= seq![' ']);
        assert(seq![' '].drop_last() =~= seq![]);
        assert(plain_word(front.last()));
        let st0 = scan(scan_start(), j);
        assert(" "@.drop_last() =~= Seq::<char>::empty());
        assert(" "@.last() == ' ');
        assert(scan(st0, Seq::<char>::empty()) == st0);
        assert(scan(st0, " "@) == scan_step(st0, ' '));
        let st1 = scan(scan(scan_start(), j), " "@);
        assert(st1 == (WordScan { words: front.drop_last().push(front.last()), current: seq![], in_quote: false, quote: ' ' }));
        assert(front.drop_last().push(front.last()) =~= ws.drop_last());
        lemma_scan_plain(st1, w);
        assert(seq![] + w =~= w);
        assert(join(ws, " "@)[0] == j[0]);
    }
}

/// Splitting undoes joining: words that are not empty and hold no
/// whitespace and no quotes, joined by single spaces, split back into the
/// same words.
pub proof fn lemma_shell_words_of_joined(ws: Seq<Seq<char>>)
    requires
        forall|k: int| 0 <= k < ws.len() ==> plain_word(#[trigger] ws[k]),
    ensures
        shell_words_spec(join(ws, " "@)) == ws,
{
    if ws.len() == 0 {
        assert(trim(join(ws, " "@)) =~= seq![]);
        assert(scan(scan_start(), seq![]) == scan_start());
    } else {
        lemma_join_ends(ws);
        let j = join(ws, " "@);
        assert(plain_word(ws[0]));
        assert(plain_char(ws[0][0]));
        assert(plain_word(ws.last()));
        assert(plain_char(ws.last()[ws.last().len() - 1]));
        assert(trim_start(j) == j);
        assert(trim_end(j) == j);
        assert(ws.drop_last().push(ws.last()) =~= ws);
    }
}

proof fn lemma_scan_words_nonempty(st: WordScan, s: Seq<char>)
    requires
        forall|k: int| 0 <= k < st.words.len() ==> (#[trigger] st.words[k]).len() > 0,
    ensures
        forall|k: int| 0 <= k < scan(st, s).words.len() ==> (#[trigger] scan(st, s).words[k]).len() > 0,
    decreases s.len(),
{
    if s.len() > 0 {
        lemma_scan_words_nonempty(st, s.drop_last());
        let p = scan(st, s.drop_last());
        let q = scan(st, s);
        assert(q == scan_step(p, s.last()));
        assert forall|k: int| 0 <= k < q.words.len() implies (#[trigger] q.words[k]).len() > 0 by {
            if k < p.words.len() {
                assert(q.words[k] == p.words[k]);
            }
        }
    }
}

/// Splitting never yields an empty word.
pub proof fn lemma_shell_words_nonempty(s: Seq<char>)
    ensures
        forall|k: int|
            0 <= k < shell_words_spec(s).len() ==> (#[trigger] shell_words_spec(s)[k]).len() > 0,
{
    lemma_scan_words_nonempty(scan_start(), trim(s));
}

/// The scanner for program strings after reading one more character `c`.
///
/// Words are separated by whitespace; a `"` or `'` opens a stretch, up to
/// the same quote, inside which whitespace belongs to the word. The quote
/// characters stay in the word.
pub open spec fn program_step(st: WordScan, c: char) -> WordScan {
    if st.in_quote {
        if c == st.quote {
            WordScan { current: st.current.push(c), in_quote: false, ..st }
        } else {
            WordScan { current: st.current.push(c), ..st }
        }
    } else if c == '"' || c == '\'' {
        WordScan { current: st.current.push(c), in_quote: true, quote: c, ..st }
    } else if is_ws(c) {
        if st.current.len() > 0 {
            WordScan { words: st.words.push(st.current), current: seq![], ..st }
        } else {
            st
        }
    } else {
        WordScan { current: st.current.push(c), ..st }
    }
}

/// The program-string scanner after reading all of `s`, starting from `st`.
pub open spec fn program_scan(st: WordScan, s: Seq<char>) -> WordScan
    decreases s.len(),
{
    if s.len() == 0 {
        st
    } else {
        program_step(program_scan(st, s.drop_last()), s.last())
    }
}

/// The words of a program string such as `bash -c 'echo hi'`: split at
/// whitespace outside quotes, a quoted stretch kept whole with its quotes.
pub open spec fn program_words_spec(s: Seq<char>) -> Seq<Seq<char>> {
    finish(program_scan(scan_start(), s))
}

/// Splits a program string into its words (see [`program_words_spec`]).
pub fn program_words(s: &str) -> (words: Vec<String>)
    ensures
        strings_view(words@) == program_words_spec(s@),
{
    let v = chars_of(s);
    let n = v.len();
    let mut words: Vec<String> = Vec::new();
    let mut current = String::new();
    let mut in_quote = false;
    let mut quote_char = ' ';
    let mut k: usize = 0;
    assert(v@.take(0) =~= seq![]);
    assert(strings_view(words@) =~= seq![]);
    while k < n
        invariant
            k <= n == v.len(),
            program_scan(scan_start(), v@.take(k as int)).words == strings_view(words@),
            program_scan(scan_start(), v@.take(k as int)).current == current@,
            program_scan(scan_start(), v@.take(k as int)).in_quote == in_quote,
            program_scan(scan_start(), v@.take(k as int)).quote == quote_char,
        decreases n - k,
    {
        let c = v[k];
        proof {
            assert(v@.take(k + 1).drop_last() =~= v@.take(k as int));
            assert(v@.take(k + 1).last() == c);
        }
        if in_quote {
            push_char(&mut current, c);
            if c == quote_char {
                in_quote = false;
            }
        } else if c == '"' || c == '\'' {
            push_char(&mut current, c);
            in_quote = true;
            quote_char = c;
        } else if is_whitespace(c) {
            if !current.as_str().is_empty() {
                let ghost old_words = words@;
                words.push(current);
                current = String::new();
                assert(strings_view(words@) =~= strings_view(old_words).push(
                    strings_view(words@).last(),
                ));
            }
        } else {
            push_char(&mut current, c);
        }
        k = k + 1;
    }
    assert(v@.take(n as int) =~= v@);
    if !current.as_str().is_empty() {
        let ghost old_words = words@;
        words.push(current);
        assert(strings_view(words@) =~= strings_view(old_words).push(strings_view(words@).last()));
    }
    words
}

proof fn lemma_program_scan_words_nonempty(st: WordScan, s: Seq<char>)
    requires
        forall|k: int| 0 <= k < st.words.len() ==> (#[trigger] st.words[k]).len() > 0,
    ensures
        forall|k: int|
            0 <= k < program_scan(st, s).words.len() ==> (#[trigger] program_scan(
                st,
                s,
            ).words[k]).len() > 0,
    decreases s.len(),
{
    if s.len() > 0 {
        lemma_program_scan_words_nonempty(st, s.drop_last());
        let p = program_scan(st, s.drop_last());
        let q = program_scan(st, s);
        assert(q == program_step(p, s.last()));
        assert forall|k: int| 0 <= k < q.words.len() implies (#[trigger] q.words[k]).len() > 0 by {
            if k < p.words.len() {
                assert(q.words[k] == p.words[k]);
            }
        }
    }
}

/// Splitting a program string never yields an empty word.
pub proof fn lemma_program_words_nonempty(s: Seq<char>)
    ensures
        forall|k: int|
            0 <= k < program_words_spec(s).len() ==> (#[trigger] program_words_spec(s)[k]).len() > 0,
{
    lemma_program_scan_words_nonempty(scan_start(), s);
}

/// Scanning `x + y` is scanning `x`, then `y`.
pub proof fn lemma_program_scan_concat(st: WordScan, x: Seq<char>, y: Seq<char>)
    ensures
        program_scan(st, x + y) == program_scan(program_scan(st, x), y),
    decreases y.len(),
{
    if y.len() == 0 {
        assert(x + y =~= x);
    } else {
        assert((x + y).drop_last() =~= x + y.drop_last());
        assert((x + y).last() == y.last());
        lemma_program_scan_concat(st, x, y.drop_last());
    }
}

/// A quoted stretch stays one word: reading `q`, then characters `body`
/// none of which is `q`, then `q` again, outside quotes, appends exactly
/// those characters, quotes included, to the current word.
pub proof fn lemma_quoted_stretch(st: WordScan, q: char, body: Seq<char>)
    requires
        !st.in_quote,
        q == '"' || q == '\'',
        forall|i: int| 0 <= i < body.len() ==> #[trigger] body[i] != q,
    ensures
        program_scan(st, seq![q] + body + seq![q]) == (WordScan {
            current: st.current + seq![q] + body + seq![q],
            quote: q,
            ..st
        }),
{
    let open = program_step(st, q);
    assert(seq![q].drop_last() =~= Seq::<char>::empty());
    assert(seq![q].last() == q);
    assert(program_scan(st, Seq::<char>::empty()) == st);
    assert(program_scan(st, seq![q]) == open);
    lemma_quoted_body(open, body);
    lemma_program_scan_concat(st, seq![q], body);
    lemma_program_scan_concat(st, seq![q] + body, seq![q]);
    let mid = program_scan(st, seq![q] + body);
    assert(program_scan(mid, Seq::<char>::empty()) == mid);
    assert(program_scan(mid, seq![q]) == program_step(mid, q));
    assert(st.current.push(q) + body =~= st.current + seq![q] + body);
    assert((st.current + seq![q] + body).push(q) =~= st.current + seq![q] + body + seq![q]);
}

proof fn lemma_quoted_body(st: WordScan, body: Seq<char>)
    requires
        st.in_quote,
        forall|i: int| 0 <= i < body.len() ==> #[trigger] body[i] != st.quote,
    ensures
        program_scan(st, body) == (WordScan { current: st.current + body, ..st }),
    decreases body.len(),
{
    if body.len() == 0 {
        assert(st.current + body =~= st.current);
    } else {
        assert forall|i: int| 0 <= i < body.drop_last().len() implies #[trigger] body.drop_last()[i]
            != st.quote by {
            assert(body.drop_last()[i] == body[i]);
        }
        lemma_quoted_body(st, body.drop_last());
        assert(body[body.len() - 1] != st.quote);
        assert((st.current + body.drop_last()).push(body.last()) =~= st.current + body);
    }
}

proof fn lemma_scan_quoted_body(st: WordScan, body: Seq<char>)
    requires
        st.in_quote,
        forall|i: int| 0 <= i < body.len() ==> #[trigger] body[i] != st.quote,
    ensures
        scan(st, body) == (WordScan { current: st.current + body, ..st }),
    decreases body.len(),
{
    if body.len() == 0 {
        assert(st.current + body =~= st.current);
    } else {
        assert forall|i: int| 0 <= i < body.drop_last().len() implies #[trigger] body.drop_last()[i]
            != st.quote by {
            assert(body.drop_last()[i] == body[i]);
        }
        lemma_scan_quoted_body(st, body.drop_last());
        assert(body[body.len() - 1] != st.quote);
        assert((st.current + body.drop_last()).push(body.last()) =~= st.current + body);
    }
}

/// Outside quotes a `"` or `'` opens a quoted stretch wherever it stands,
/// also in the middle of a word: `p"body"` (or with `'`) is the single
/// word `p` followed by `body`, the quotes dropped and the spaces of `body`
/// kept.
pub proof fn lemma_quote_opens_anywhere(p: Seq<char>, q: char, body: Seq<char>)
    requires
        p.len() > 0,
        forall|i: int| 0 <= i < p.len() ==> plain_char(#[trigger] p[i]),
        q == '"' || q == '\'',
        forall|i: int| 0 <= i < body.len() ==> #[trigger] body[i] != q,
    ensures
        shell_words_spec(p + seq![q] + body + seq![q]) == seq![p + body],
{
    let s = p + seq![q] + body + seq![q];
    assert(s[0] == p[0]);
    assert(plain_char(p[0]));
    assert(s.last() == q);
    assert(trim_start(s) == s);
    assert(trim_end(s) == s);
    lemma_scan_plain(scan_start(), p);
    assert(seq![] + p =~= p);
    let st1 = scan(scan_start(), p);
    assert(st1 == (WordScan { current: p, ..scan_start() }));
    lemma_scan_concat(scan_start(), p, seq![q]);
    assert(seq![q].drop_last() =~= Seq::<char>::empty());
    assert(seq![q].last() == q);
    assert(scan(st1, Seq::<char>::empty()) == st1);
    let st2 = scan(st1, seq![q]);
    assert(st2 == scan_step(st1, q));
    assert(st2 == (WordScan { in_quote: true, quote: q, ..st1 }));
    lemma_scan_quoted_body(st2, body);
    lemma_scan_concat(scan_start(), p + seq![q], body);
    let st3 = scan(st2, body);
    lemma_scan_concat(scan_start(), p + seq![q] + body, seq![q]);
    assert(scan(st3, Seq::<char>::empty()) == st3);
    assert(scan(st3, seq![q]) == scan_step(st3, q));
    let st4 = scan(st3, seq![q]);
    assert(st4.current == p + body);
    assert(st4.words == Seq::<Seq<char>>::empty());
    assert(finish(st4) =~= seq![p + body]);
}

proof fn lemma_scan_unbroken(st: WordScan, w: Seq<char>)
    requires
        !st.in_quote,
        forall|i: int| 0 <= i < w.len() ==> #[trigger] w[i] != ' ' && w[i] != '"' && w[i] != '\'',
    ensures
        scan(st, w) == (WordScan { current: st.current + w, ..st }),
    decreases w.len(),
{
    if w.len() == 0 {
        assert(st.current + w =~= st.current);
    } else {
        assert forall|i: int| 0 <= i < w.drop_last().len() implies #[trigger] w.drop_last()[i] != ' '
            && w.drop_last()[i] != '"' && w.drop_last()[i] != '\'' by {
            assert(w.drop_last()[i] == w[i]);
        }
        lemma_scan_unbroken(st, w.drop_last());
        assert(w[w.len() - 1] != ' ');
        assert((st.current + w.drop_last()).push(w.last()) =~= st.current + w);
    }
}

/// Only the space character separates words: text without spaces or
/// quotes that neither starts nor ends with whitespace is one word, even
/// when it holds tabs or other whitespace inside.
pub proof fn lemma_only_spaces_separate(w: Seq<char>)
    requires
        w.len() > 0,
        !is_ws(w[0]),
        !is_ws(w.last()),
        forall|i: int| 0 <= i < w.len() ==> #[trigger] w[i] != ' ' && w[i] != '"' && w[i] != '\'',
    ensures
        shell_words_spec(w) == seq![w],
{
    assert(trim_start(w) == w);
    assert(trim_end(w) == w);
    lemma_scan_unbroken(scan_start(), w);
    assert(seq![] + w =~= w);
    assert(finish(scan(scan_start(), w)) =~= seq![w]);
}

} // verus!
