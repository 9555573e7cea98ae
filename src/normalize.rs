use vstd::prelude::*;
use vstd::string::StrSliceExecFns;
use vstd::string::StringExecFns;

verus! {

/// The characters with the Unicode `White_Space` property.
pub open spec fn is_ws(c: char) -> bool {
    ('\u{9}' <= c && c <= '\u{d}') || c == ' ' || c == '\u{85}' || c == '\u{a0}' || c
        == '\u{1680}' || ('\u{2000}' <= c && c <= '\u{200a}') || c == '\u{2028}' || c
        == '\u{2029}' || c == '\u{202f}' || c == '\u{205f}' || c == '\u{3000}'
}

/// Whitespace collapsing, read left to right.
///
/// `started` records that a word was already produced, `gap` that whitespace
/// followed it, so that a single space is due before the next word.
pub open spec fn collapse(s: Seq<char>, started: bool, gap: bool) -> Seq<char>
    decreases s.len(),
{
    if s.len() == 0 {
        Seq::empty()
    } else if is_ws(s[0]) {
        collapse(s.drop_first(), started, started)
    } else {
        (if gap { seq![' '] } else { Seq::empty() }) + seq![s[0]] + collapse(
            s.drop_first(),
            true,
            false,
        )
    }
}

/// The words of `s` (maximal runs without whitespace), joined by single spaces.
pub open spec fn normalized(s: Seq<char>) -> Seq<char> {
    collapse(s, false, false)
}

/// Whether `c` is whitespace, as `char::is_whitespace` decides it.
pub fn is_whitespace_char(c: char) -> (r: bool)
    ensures
        r == is_ws(c),
{
    ('\u{9}' <= c && c <= '\u{d}') || c == ' ' || c == '\u{85}' || c == '\u{a0}' || c
        == '\u{1680}' || ('\u{2000}' <= c && c <= '\u{200a}') || c == '\u{2028}' || c
        == '\u{2029}' || c == '\u{202f}' || c == '\u{205f}' || c == '\u{3000}'
}

proof fn lemma_collapse_unfold(s: Seq<char>, i: int, started: bool, gap: bool)
    requires
        0 <= i < s.len(),
    ensures
        collapse(s.subrange(i, s.len() as int), started, gap) == (if is_ws(s[i]) {
            collapse(s.subrange(i + 1, s.len() as int), started, started)
        } else {
            (if gap { seq![' '] } else { Seq::empty() }) + seq![s[i]] + collapse(
                s.subrange(i + 1, s.len() as int),
                true,
                false,
            )
        }),
{
    let t = s.subrange(i, s.len() as int);
    assert(t.drop_first() =~= s.subrange(i + 1, s.len() as int));
    assert(t[0] == s[i]);
}

proof fn lemma_collapse_after_word(s: Seq<char>)
    ensures
        collapse(s, true, true).len() == 0 || collapse(s, true, true)[0] == ' ',
    decreases s.len(),
{
    if s.len() > 0 && is_ws(s[0]) {
        lemma_collapse_after_word(s.drop_first());
    }
}

proof fn lemma_collapse_idempotent(s: Seq<char>, started: bool, gap: bool)
    requires
        gap ==> started,
    ensures
        collapse(collapse(s, started, gap), started, gap) == collapse(s, started, gap),
    decreases s.len(),
{
    if s.len() > 0 {
        let r = s.drop_first();
        let c = s[0];
        if is_ws(c) {
            lemma_collapse_idempotent(r, started, started);
            let u = collapse(r, started, started);
            if started && !gap {
                lemma_collapse_after_word(r);
                if u.len() > 0 {
                    assert(collapse(u, true, false) == collapse(u.drop_first(), true, true));
                    assert(collapse(u, true, true) == collapse(u.drop_first(), true, true));
                }
            }
        } else {
            let w = collapse(r, true, false);
            lemma_collapse_idempotent(r, true, false);
            if gap {
                let u = seq![' '] + seq![c] + w;
                assert(collapse(s, started, gap) == u);
                assert(u.drop_first() =~= seq![c] + w);
                assert((seq![c] + w).drop_first() =~= w);
                assert(collapse(u, started, gap) == collapse(seq![c] + w, true, true));
                assert(collapse(seq![c] + w, true, true) =~= seq![' '] + seq![c] + collapse(w, true, false));
            } else {
                let u = seq![c] + w;
                assert(collapse(s, started, gap) =~= u);
                assert(u.drop_first() =~= w);
                assert(collapse(u, started, gap) =~= seq![c] + collapse(w, true, false));
            }
        }
    }
}

/// Normalizing a field a second time changes nothing.
pub proof fn lemma_normalize_idempotent(s: Seq<char>)
    ensures
        normalized(normalized(s)) == normalized(s),
{
    lemma_collapse_idempotent(s, false, false);
}

/// Whether `s` holds a character that is not whitespace.
pub open spec fn has_word(s: Seq<char>) -> bool {
    exists|i: int| 0 <= i < s.len() && !is_ws(#[trigger] s[i])
}

/// The `(started, gap)` state of `collapse` after reading `s`.
pub open spec fn collapse_state(s: Seq<char>, started: bool, gap: bool) -> (bool, bool)
    decreases s.len(),
{
    if s.len() == 0 {
        (started, gap)
    } else if is_ws(s[0]) {
        collapse_state(s.drop_first(), started, started)
    } else {
        collapse_state(s.drop_first(), true, false)
    }
}

proof fn lemma_collapse_concat(a: Seq<char>, c: Seq<char>, started: bool, gap: bool)
    ensures
        collapse(a + c, started, gap) == collapse(a, started, gap) + collapse(
            c,
            collapse_state(a, started, gap).0,
            collapse_state(a, started, gap).1,
        ),
    decreases a.len(),
{
    if a.len() == 0 {
        assert(a + c =~= c);
    } else {
        assert((a + c).drop_first() =~= a.drop_first() + c);
        assert((a + c)[0] == a[0]);
        if is_ws(a[0]) {
            lemma_collapse_concat(a.drop_first(), c, started, started);
        } else {
            lemma_collapse_concat(a.drop_first(), c, true, false);
        }
    }
}

proof fn lemma_state_started(s: Seq<char>, started: bool, gap: bool)
    requires
        has_word(s),
    ensures
        collapse_state(s, started, gap).0,
    decreases s.len(),
{
    if is_ws(s[0]) {
        let i = choose|i: int| 0 <= i < s.len() && !is_ws(#[trigger] s[i]);
        assert(s.drop_first()[i - 1] == s[i]);
        lemma_state_started(s.drop_first(), started, started);
    } else {
        lemma_state_keeps_started(s.drop_first(), false);
    }
}

proof fn lemma_state_keeps_started(s: Seq<char>, gap: bool)
    ensures
        collapse_state(s, true, gap).0,
    decreases s.len(),
{
    if s.len() > 0 {
        if is_ws(s[0]) {
            lemma_state_keeps_started(s.drop_first(), true);
        } else {
            lemma_state_keeps_started(s.drop_first(), false);
        }
    }
}

proof fn lemma_collapse_leading_space(s: Seq<char>)
    requires
        has_word(s),
    ensures
        collapse(s, true, true) == seq![' '] + collapse(s, false, false),
    decreases s.len(),
{
    if is_ws(s[0]) {
        let i = choose|i: int| 0 <= i < s.len() && !is_ws(#[trigger] s[i]);
        assert(s.drop_first()[i - 1] == s[i]);
        lemma_collapse_leading_space(s.drop_first());
    } else {
        assert(seq![' '] + seq![s[0]] + collapse(s.drop_first(), true, false) =~= seq![' '] + (
        Seq::<char>::empty() + seq![s[0]] + collapse(s.drop_first(), true, false)));
    }
}

/// Two pieces that each hold a word, joined by a line break, normalize to
/// their normalized forms joined by one space.
pub proof fn lemma_normalize_line_break(a: Seq<char>, b: Seq<char>)
    requires
        has_word(a),
        has_word(b),
    ensures
        normalized(a + seq!['\n'] + b) == normalized(a) + seq![' '] + normalized(b),
{
    let (st, g) = collapse_state(a, false, false);
    lemma_collapse_concat(a, seq!['\n'] + b, false, false);
    assert(a + seq!['\n'] + b =~= a + (seq!['\n'] + b));
    lemma_state_started(a, false, false);
    let nb = seq!['\n'] + b;
    assert(nb.drop_first() =~= b);
    assert(is_ws(nb[0]));
    assert(collapse(nb, st, g) == collapse(b, true, true));
    lemma_collapse_leading_space(b);
    assert(normalized(a) + (seq![' '] + normalized(b)) =~= normalized(a) + seq![' '] + normalized(b));
}

/// Normalized text holds no whitespace but single spaces; in particular no
/// line break.
pub proof fn lemma_normalized_has_no_line_break(s: Seq<char>)
    ensures
        forall|i: int| 0 <= i < normalized(s).len() ==> #[trigger] normalized(s)[i] != '\n',
{
    lemma_collapse_no_line_break(s, false, false);
}

proof fn lemma_collapse_no_line_break(s: Seq<char>, started: bool, gap: bool)
    ensures
        forall|i: int|
            0 <= i < collapse(s, started, gap).len() ==> #[trigger] collapse(s, started, gap)[i]
                != '\n',
    decreases s.len(),
{
    if s.len() > 0 {
        if is_ws(s[0]) {
            lemma_collapse_no_line_break(s.drop_first(), started, started);
            assert(collapse(s, started, gap) == collapse(s.drop_first(), started, started));
        } else {
            lemma_collapse_no_line_break(s.drop_first(), true, false);
            let pre: Seq<char> = if gap { seq![' '] } else { Seq::empty() };
            let rest = collapse(s.drop_first(), true, false);
            let head = pre + seq![s[0]];
            assert(collapse(s, started, gap) == head + rest);
            assert(is_ws('\n'));
            assert forall|i: int| 0 <= i < collapse(s, started, gap).len() implies #[trigger] collapse(
                s,
                started,
                gap,
            )[i] != '\n' by {
                if i < head.len() {
                    assert(collapse(s, started, gap)[i] == head[i]);
                    assert(head[i] == ' ' || head[i] == s[0]);
                } else {
                    assert(collapse(s, started, gap)[i] == rest[i - head.len()]);
                }
            }
        }
    }
}

/// Splits `input` on runs of whitespace, drops the empty pieces and joins the
/// rest with single spaces: leading and trailing whitespace disappear, and
/// tabs, newlines and repeated spaces inside become one space.
pub fn clean_and_normalize_field(input: &str) -> (r: String)
    ensures
        r@ == normalized(input@),
{
    let n = input.unicode_len();
    let ghost s = input@;
    let mut out = String::new();
    let mut i: usize = 0;
    let mut started = false;
    let mut gap = false;
    let mut in_word = false;
    let mut start: usize = 0;
    proof {
        assert(s.subrange(0, s.len() as int) =~= s);
    }
    while i < n
        invariant
            n == s.len(),
            s == input@,
            i <= n,
            start <= i,
            gap ==> started,
            !in_word ==> normalized(s) == out@ + collapse(s.subrange(i as int, n as int), started, gap),
            in_word ==> normalized(s) == out@ + s.subrange(start as int, i as int) + collapse(
                s.subrange(i as int, n as int),
                true,
                false,
            ),
        decreases n - i,
    {
        let c = input.get_char(i);
        proof {
            lemma_collapse_unfold(s, i as int, if in_word { true } else { started }, if in_word { false } else { gap });
        }
        if is_whitespace_char(c) {
            if in_word {
                let word = input.substring_char(start, i);
                out.append(word);
                in_word = false;
                started = true;
                gap = true;
            } else {
                gap = started;
            }
        } else {
            if in_word {
                proof {
                    let rest = collapse(s.subrange(i + 1, n as int), true, false);
                    let w = s.subrange(start as int, i as int);
                    assert(w + seq![c] =~= s.subrange(start as int, i + 1));
                    assert(out@ + w + (Seq::<char>::empty() + seq![c] + rest) =~= out@ + s.subrange(
                        start as int,
                        i + 1,
                    ) + rest);
                }
            } else {
                let ghost out0 = out@;
                if gap {
                    out.append(" ");
                }
                proof {
                    reveal_strlit(" ");
                    let rest = collapse(s.subrange(i + 1, n as int), true, false);
                    let pre: Seq<char> = if gap { seq![' '] } else { Seq::empty() };
                    assert(out@ =~= out0 + pre);
                    assert(s.subrange(i as int, i + 1) =~= seq![c]);
                    assert(out0 + (pre + seq![c] + rest) =~= out@ + seq![c] + rest);
                }
                in_word = true;
                start = i;
                started = true;
                gap = false;
            }
        }
        i = i + 1;
    }
    if in_word {
        let word = input.substring_char(start, n);
        out.append(word);
    }
    proof {
        assert(s.subrange(n as int, n as int) =~= Seq::<char>::empty());
    }
    out
}

} // verus!
