use vstd::prelude::*;
use crate::scan::{
    closes_line, is_blank, is_line_split, open_before_last, lemma_run_end, lemma_step_advances, lemma_step_shape, lex_all,
    lex_from, run_end, step,
};
use crate::types::{Token, TokenType};

verus! {

broadcast use vstd::seq_lib::group_seq_properties;

/// The text that the tokens `toks` span, one after another.
pub open spec fn tokens_text(s: Seq<char>, toks: Seq<Token>) -> Seq<char>
    decreases toks.len(),
{
    if toks.len() == 0 {
        Seq::empty()
    } else {
        s.subrange(toks[0].range.start.index as int, toks[0].range.end.index as int)
            + tokens_text(s, toks.drop_first())
    }
}

/// `t` spans a run of one blank character that the source does not go on
/// with.
pub open spec fn is_blank_run(s: Seq<char>, t: Token) -> bool {
    let a = t.range.start.index as int;
    let b = t.range.end.index as int;
    &&& 0 <= a < b <= s.len()
    &&& is_blank(s[a])
    &&& forall|k: int| a <= k < b ==> #[trigger] s[k] == s[a]
    &&& (b == s.len() || s[b] != s[a])
}

proof fn lemma_text_from(s: Seq<char>, i: int, line: int, ls: int)
    requires
        0 <= i <= s.len() <= usize::MAX,
        0 <= ls <= i,
        0 <= line <= i,
    ensures
        tokens_text(s, lex_from(s, i, line, ls)) == s.subrange(i, s.len() as int),
    decreases s.len() - i,
{
    let l = lex_from(s, i, line, ls);
    if i < s.len() {
        let st = step(s, i, line, ls);
        lemma_step_advances(s, i, line, ls);
        lemma_step_shape(s, i, line, ls);
        lemma_text_from(s, st.1, st.2, st.3);
        assert(l.drop_first() == lex_from(s, st.1, st.2, st.3));
        assert(l[0] == st.0);
        assert(s.subrange(i, st.1) + s.subrange(st.1, s.len() as int) =~= s.subrange(
            i,
            s.len() as int,
        ));
    } else {
        assert(l.drop_first() =~= Seq::<Token>::empty());
        assert(tokens_text(s, l.drop_first()) == Seq::<char>::empty());
        assert(l[0].range.start.index as int == s.len());
        assert(l[0].range.end.index as int == s.len());
        assert(s.subrange(s.len() as int, s.len() as int) =~= Seq::<char>::empty());
    }
}

/// Reading the text of every token of every logical line, in order, gives
/// back the whole source.
pub proof fn lemma_lossless(s: Seq<char>, lines: Seq<Seq<Token>>)
    requires
        s.len() <= usize::MAX,
        is_line_split(s, lines),
    ensures
        tokens_text(s, lines.flatten()) == s,
{
    lemma_text_from(s, 0, 0, 0);
    assert(s.subrange(0, s.len() as int) =~= s);
}

proof fn lemma_run_end_run(s: Seq<char>, j: int, c: char)
    requires
        0 <= j <= s.len(),
    ensures
        forall|k: int| j <= k < run_end(s, j, c) ==> #[trigger] s[k] == c,
        run_end(s, j, c) == s.len() || s[run_end(s, j, c)] != c,
    decreases s.len() - j,
{
    if j < s.len() && s[j] == c {
        lemma_run_end_run(s, j + 1, c);
    }
}

proof fn lemma_blank_runs_from(s: Seq<char>, i: int, line: int, ls: int)
    requires
        0 <= i <= s.len() <= usize::MAX,
        0 <= ls <= i,
        0 <= line <= i,
    ensures
        forall|k: int|
            0 <= k < lex_from(s, i, line, ls).len() && (#[trigger] lex_from(
                s,
                i,
                line,
                ls,
            )[k]).token_type == TokenType::Whitespace ==> is_blank_run(
                s,
                lex_from(s, i, line, ls)[k],
            ),
    decreases s.len() - i,
{
    let l = lex_from(s, i, line, ls);
    if i < s.len() {
        let st = step(s, i, line, ls);
        lemma_step_advances(s, i, line, ls);
        lemma_step_shape(s, i, line, ls);
        lemma_blank_runs_from(s, st.1, st.2, st.3);
        let rest = lex_from(s, st.1, st.2, st.3);
        if is_blank(s[i]) {
            lemma_run_end(s, i + 1, s[i]);
            lemma_run_end_run(s, i + 1, s[i]);
            assert(st.1 == run_end(s, i + 1, s[i]));
        }
        assert forall|k: int|
            0 <= k < l.len() && (#[trigger] l[k]).token_type
                == TokenType::Whitespace implies is_blank_run(s, l[k]) by {
            if k > 0 {
                assert(l[k] == rest[k - 1]);
            }
        }
    }
}

/// A `Whitespace` token spans blanks of one kind only, and the source does
/// not go on with that kind: runs of spaces and runs of tabs are never
/// merged.
pub proof fn lemma_blank_runs(s: Seq<char>, lines: Seq<Seq<Token>>, k: int)
    requires
        s.len() <= usize::MAX,
        is_line_split(s, lines),
        0 <= k < lines.flatten().len(),
        lines.flatten()[k].token_type == TokenType::Whitespace,
    ensures
        is_blank_run(s, lines.flatten()[k]),
{
    lemma_blank_runs_from(s, 0, 0, 0);
    assert(lex_all(s)[k] == lex_from(s, 0, 0, 0)[k]);
}

/// Each line is non-empty, only its last token may close it, and every line
/// but the last is closed.
spec fn cuts_ok(s: Seq<char>, lines: Seq<Seq<Token>>) -> bool {
    forall|k: int|
        0 <= k < lines.len() ==> {
            &&& #[trigger] lines[k].len() > 0
            &&& open_before_last(s, lines[k])
            &&& k < lines.len() - 1 ==> closes_line(s, lines[k], lines[k].len() - 1)
        }
}

proof fn lemma_flatten_len(lines: Seq<Seq<Token>>)
    requires
        lines.len() > 0,
    ensures
        lines.flatten().len() >= lines[0].len(),
        lines.flatten() == lines[0] + lines.drop_first().flatten(),
{
}

proof fn lemma_cut_not_earlier(s: Seq<char>, a: Seq<Seq<Token>>, b: Seq<Seq<Token>>)
    requires
        cuts_ok(s, a),
        cuts_ok(s, b),
        a.len() > 0,
        b.len() > 0,
        a.flatten() == b.flatten(),
    ensures
        a[0].len() >= b[0].len(),
{
    let t = a.flatten();
    lemma_flatten_len(a);
    lemma_flatten_len(b);
    let p = a[0].len() as int;
    let q = b[0].len() as int;
    if p < q {
        if a.len() == 1 {
            assert(a.drop_first().flatten() =~= Seq::<Token>::empty());
            assert(t.len() == p);
        } else {
            assert(closes_line(s, a[0], p - 1));
            assert(a[0][p - 1] == t[p - 1]);
            assert(b[0][p - 1] == t[p - 1]);
            if p > 1 {
                assert(a[0][p - 2] == t[p - 2]);
                assert(b[0][p - 2] == t[p - 2]);
            }
            assert(closes_line(s, b[0], p - 1) == closes_line(s, a[0], p - 1));
            assert(!closes_line(s, b[0], p - 1));
        }
    }
}

proof fn lemma_cuts_unique(s: Seq<char>, a: Seq<Seq<Token>>, b: Seq<Seq<Token>>)
    requires
        cuts_ok(s, a),
        cuts_ok(s, b),
        a.len() > 0,
        b.len() > 0,
        a.flatten() == b.flatten(),
    ensures
        a == b,
    decreases a.len(),
{
    let t = a.flatten();
    lemma_flatten_len(a);
    lemma_flatten_len(b);
    lemma_cut_not_earlier(s, a, b);
    lemma_cut_not_earlier(s, b, a);
    let p = a[0].len() as int;
    assert(a[0] =~= t.subrange(0, p));
    assert(b[0] =~= t.subrange(0, p));
    let ra = a.drop_first();
    let rb = b.drop_first();
    assert(ra.flatten() =~= t.subrange(p, t.len() as int));
    assert(rb.flatten() =~= t.subrange(p, t.len() as int));
    if ra.len() == 0 && rb.len() > 0 {
        lemma_flatten_len(rb);
        assert(rb[0] == b[1]);
    } else if rb.len() == 0 && ra.len() > 0 {
        lemma_flatten_len(ra);
        assert(ra[0] == a[1]);
    } else if ra.len() > 0 {
        assert forall|k: int| 0 <= k < ra.len() implies {
            &&& #[trigger] ra[k].len() > 0
            &&& open_before_last(s, ra[k])
            &&& k < ra.len() - 1 ==> closes_line(s, ra[k], ra[k].len() - 1)
        } by {
            assert(ra[k] == a[k + 1]);
        }
        assert forall|k: int| 0 <= k < rb.len() implies {
            &&& #[trigger] rb[k].len() > 0
            &&& open_before_last(s, rb[k])
            &&& k < rb.len() - 1 ==> closes_line(s, rb[k], rb[k].len() - 1)
        } by {
            assert(rb[k] == b[k + 1]);
        }
        lemma_cuts_unique(s, ra, rb);
    }
    assert(a =~= b) by {
        assert(a =~= seq![a[0]] + ra);
        assert(b =~= seq![b[0]] + rb);
    }
}

/// A source has one way only to be cut into logical lines: the lines that
/// tokenizing gives are determined by the source.
pub proof fn lemma_line_split_unique(s: Seq<char>, a: Seq<Seq<Token>>, b: Seq<Seq<Token>>)
    requires
        is_line_split(s, a),
        is_line_split(s, b),
    ensures
        a == b,
{
    lemma_cuts_unique(s, a, b);
}

} // verus!
