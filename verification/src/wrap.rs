//! Greedy word wrapping bounded by display width. The input is split on
//! whitespace; words are packed into lines of at most the budgeted width, and
//! a word wider than the whole budget is broken into greedy chunks.

use crate::width::{
    char_display_width, char_to_string, char_width, is_space, is_space_char,
    lemma_str_width_concat, lemma_str_width_push, str_width, text_width,
};
use vstd::prelude::*;

verus! {

/// Narrowest column budget the wrapper works with: smaller requests are
/// widened to this, which keeps the layout from degenerating.
pub const MIN_WRAP_WIDTH: usize = 10;

/// The column budget actually used for a requested width.
pub open spec fn effective_width(width: int) -> int {
    if width < MIN_WRAP_WIDTH as int {
        MIN_WRAP_WIDTH as int
    } else {
        width
    }
}

/// The views of a sequence of strings.
pub open spec fn seq_views(ss: Seq<String>) -> Seq<Seq<char>> {
    ss.map_values(|s: String| s@)
}

/// Words remaining in `s` when `cur` holds a partially read word.
pub open spec fn words_acc(s: Seq<char>, cur: Seq<char>) -> Seq<Seq<char>>
    decreases s.len(),
{
    if s.len() == 0 {
        if cur.len() == 0 {
            Seq::empty()
        } else {
            seq![cur]
        }
    } else if is_space_char(s[0]) {
        if cur.len() == 0 {
            words_acc(s.drop_first(), cur)
        } else {
            seq![cur] + words_acc(s.drop_first(), Seq::empty())
        }
    } else {
        words_acc(s.drop_first(), cur.push(s[0]))
    }
}

/// The whitespace-separated words of a string, in order, without empties.
pub open spec fn words_of(s: Seq<char>) -> Seq<Seq<char>> {
    words_acc(s, Seq::empty())
}

/// The strings joined by single spaces.
pub open spec fn join_spaces(ss: Seq<Seq<char>>) -> Seq<char>
    decreases ss.len(),
{
    if ss.len() == 0 {
        Seq::empty()
    } else if ss.len() == 1 {
        ss[0]
    } else {
        ss[0] + seq![' '] + join_spaces(ss.drop_first())
    }
}

/// How many leading characters of `w` fit in `budget` columns.
pub open spec fn chunk_end(w: Seq<char>, budget: int) -> int
    decreases w.len(),
{
    if w.len() == 0 {
        0
    } else if char_display_width(w[0]) > budget {
        0
    } else {
        1 + chunk_end(w.drop_first(), budget - char_display_width(w[0]))
    }
}

/// Characters taken for the first chunk of `w`: what fits, but at least one
/// so that no content is ever dropped.
pub open spec fn chunk_split(w: Seq<char>, budget: int) -> int {
    if chunk_end(w, budget) < 1 {
        1
    } else {
        chunk_end(w, budget)
    }
}

proof fn lemma_chunk_end_bounds(w: Seq<char>, budget: int)
    ensures
        0 <= chunk_end(w, budget) <= w.len(),
    decreases w.len(),
{
    if w.len() > 0 && char_display_width(w[0]) <= budget {
        lemma_chunk_end_bounds(w.drop_first(), budget - char_display_width(w[0]));
    }
}

proof fn lemma_chunk_end_pos(w: Seq<char>, budget: int)
    requires
        budget >= 3,
        w.len() > 0,
    ensures
        chunk_end(w, budget) >= 1,
{
    lemma_chunk_end_bounds(w.drop_first(), budget - char_display_width(w[0]));
}

proof fn lemma_chunk_end_width(w: Seq<char>, budget: int)
    requires
        budget >= 0,
    ensures
        str_width(w.take(chunk_end(w, budget))) <= budget,
    decreases w.len(),
{
    if w.len() == 0 || char_display_width(w[0]) > budget {
        assert(w.take(0) =~= Seq::<char>::empty());
    } else {
        let e = chunk_end(w, budget);
        lemma_chunk_end_bounds(w.drop_first(), budget - char_display_width(w[0]));
        lemma_chunk_end_width(w.drop_first(), budget - char_display_width(w[0]));
        assert(w.take(e)[0] == w[0]);
        assert(w.take(e).drop_first() =~= w.drop_first().take(e - 1));
    }
}

/// Greedy chunks of a word too wide for one line.
pub open spec fn chunks_of(w: Seq<char>, budget: int) -> Seq<Seq<char>>
    decreases w.len(),
    via chunks_of_decreases
{
    if w.len() == 0 {
        Seq::empty()
    } else {
        let e = chunk_split(w, budget);
        seq![w.take(e)] + chunks_of(w.skip(e), budget)
    }
}

#[via_fn]
proof fn chunks_of_decreases(w: Seq<char>, budget: int) {
    lemma_chunk_end_bounds(w, budget);
}

proof fn lemma_chunks_width(w: Seq<char>, budget: int)
    requires
        budget >= 3,
    ensures
        forall|i: int|
            0 <= i < chunks_of(w, budget).len() ==> str_width(
                #[trigger] chunks_of(w, budget)[i],
            ) <= budget,
    decreases w.len(),
{
    if w.len() > 0 {
        lemma_chunk_end_pos(w, budget);
        lemma_chunk_end_bounds(w, budget);
        lemma_chunk_end_width(w, budget);
        let e = chunk_split(w, budget);
        lemma_chunks_width(w.skip(e), budget);
        assert forall|i: int| 0 <= i < chunks_of(w, budget).len() implies str_width(
            chunks_of(w, budget)[i],
        ) <= budget by {
            if i == 0 {
                assert(chunks_of(w, budget)[0] == w.take(e));
            } else {
                assert(chunks_of(w, budget)[i] == chunks_of(w.skip(e), budget)[i - 1]);
            }
        }
    }
}

/// Lines produced from the words still to place, `cur` being the line under
/// construction. A word that fits joins `cur` after one separating space when
/// the combined width stays within the budget; otherwise `cur` is flushed.
/// A word wider than the whole budget is emitted as greedy chunks.
pub open spec fn wrap_acc(ws: Seq<Seq<char>>, budget: int, cur: Seq<char>) -> Seq<Seq<char>>
    decreases ws.len(),
{
    if ws.len() == 0 {
        if cur.len() == 0 {
            Seq::empty()
        } else {
            seq![cur]
        }
    } else {
        let w = ws[0];
        if str_width(w) > budget {
            (if cur.len() == 0 {
                Seq::empty()
            } else {
                seq![cur]
            }) + chunks_of(w, budget) + wrap_acc(ws.drop_first(), budget, Seq::empty())
        } else if cur.len() == 0 {
            wrap_acc(ws.drop_first(), budget, w)
        } else if str_width(cur) + 1 + str_width(w) <= budget {
            wrap_acc(ws.drop_first(), budget, cur + seq![' '] + w)
        } else {
            seq![cur] + wrap_acc(ws.drop_first(), budget, w)
        }
    }
}

/// All lines of the wrapped text: the words packed greedily, and one empty
/// line when there is no word at all.
pub open spec fn wrap_lines(text: Seq<char>, width: int) -> Seq<Seq<char>> {
    let lines = wrap_acc(words_of(text), effective_width(width), Seq::empty());
    if lines.len() == 0 {
        seq![Seq::<char>::empty()]
    } else {
        lines
    }
}

/// Every word split off a string is non-empty.
pub proof fn lemma_words_acc_nonempty(s: Seq<char>, cur: Seq<char>)
    ensures
        forall|j: int|
            0 <= j < words_acc(s, cur).len() ==> (#[trigger] words_acc(s, cur)[j]).len() > 0,
    decreases s.len(),
{
    if s.len() == 0 {
        if cur.len() > 0 {
            assert(words_acc(s, cur) == seq![cur]);
            assert(words_acc(s, cur)[0] == cur);
        }
    } else if is_space_char(s[0]) {
        lemma_words_acc_nonempty(s.drop_first(), Seq::empty());
        lemma_words_acc_nonempty(s.drop_first(), cur);
        if cur.len() == 0 {
            assert(words_acc(s, cur) == words_acc(s.drop_first(), cur));
        }
        if cur.len() > 0 {
            let rest = words_acc(s.drop_first(), Seq::empty());
            assert forall|j: int| 0 <= j < words_acc(s, cur).len() implies (words_acc(s, cur)[j]).len()
                > 0 by {
                if j == 0 {
                    assert(words_acc(s, cur)[0] == cur);
                } else {
                    assert(words_acc(s, cur)[j] == rest[j - 1]);
                }
            }
        }
    } else {
        lemma_words_acc_nonempty(s.drop_first(), cur.push(s[0]));
        assert(words_acc(s, cur) == words_acc(s.drop_first(), cur.push(s[0])));
    }
}

proof fn lemma_wrap_acc_width(ws: Seq<Seq<char>>, budget: int, cur: Seq<char>)
    requires
        char_display_width(' ') == 1,
        budget >= 3,
        str_width(cur) <= budget,
    ensures
        forall|i: int|
            0 <= i < wrap_acc(ws, budget, cur).len() ==> str_width(
                #[trigger] wrap_acc(ws, budget, cur)[i],
            ) <= budget,
    decreases ws.len(),
{
    if ws.len() == 0 {
        if cur.len() > 0 {
            assert(wrap_acc(ws, budget, cur) == seq![cur]);
            assert(wrap_acc(ws, budget, cur)[0] == cur);
        }
    } else {
        let w = ws[0];
        if str_width(w) > budget {
            lemma_chunks_width(w, budget);
            lemma_wrap_acc_width(ws.drop_first(), budget, Seq::empty());
            let flushed: Seq<Seq<char>> = if cur.len() == 0 {
                Seq::empty()
            } else {
                seq![cur]
            };
            let chunks = chunks_of(w, budget);
            let rest = wrap_acc(ws.drop_first(), budget, Seq::empty());
            assert(wrap_acc(ws, budget, cur) == flushed + chunks + rest);
            assert forall|i: int| 0 <= i < wrap_acc(ws, budget, cur).len() implies str_width(
                wrap_acc(ws, budget, cur)[i],
            ) <= budget by {
                if i < flushed.len() {
                    assert(wrap_acc(ws, budget, cur)[i] == cur);
                } else if i < flushed.len() + chunks.len() {
                    assert(wrap_acc(ws, budget, cur)[i] == chunks[i - flushed.len()]);
                } else {
                    assert(wrap_acc(ws, budget, cur)[i] == rest[i - flushed.len() - chunks.len()]);
                }
            }
        } else if cur.len() == 0 {
            lemma_wrap_acc_width(ws.drop_first(), budget, w);
            assert(wrap_acc(ws, budget, cur) == wrap_acc(ws.drop_first(), budget, w));
        } else if str_width(cur) + 1 + str_width(w) <= budget {
            let joined = cur + seq![' '] + w;
            lemma_str_width_concat(cur + seq![' '], w);
            lemma_str_width_concat(cur, seq![' ']);
            assert(str_width(seq![' ']) == char_display_width(' ') + str_width(
                seq![' '].drop_first(),
            ));
            assert(seq![' '].drop_first() =~= Seq::<char>::empty());
            assert(str_width(joined) == str_width(cur) + 1 + str_width(w));
            lemma_wrap_acc_width(ws.drop_first(), budget, joined);
            assert(wrap_acc(ws, budget, cur) == wrap_acc(ws.drop_first(), budget, joined));
        } else {
            lemma_wrap_acc_width(ws.drop_first(), budget, w);
            let rest = wrap_acc(ws.drop_first(), budget, w);
            assert(wrap_acc(ws, budget, cur) == seq![cur] + rest);
            assert forall|i: int| 0 <= i < wrap_acc(ws, budget, cur).len() implies str_width(
                wrap_acc(ws, budget, cur)[i],
            ) <= budget by {
                if i == 0 {
                    assert(wrap_acc(ws, budget, cur)[0] == cur);
                } else {
                    assert(wrap_acc(ws, budget, cur)[i] == rest[i - 1]);
                }
            }
        }
    }
}

proof fn lemma_wrap_acc_nonempty(ws: Seq<Seq<char>>, budget: int, cur: Seq<char>)
    requires
        cur.len() > 0 || ws.len() > 0,
        forall|j: int| 0 <= j < ws.len() ==> (#[trigger] ws[j]).len() > 0,
    ensures
        wrap_acc(ws, budget, cur).len() > 0,
    decreases ws.len(),
{
    if ws.len() == 0 {
    } else {
        let w = ws[0];
        if str_width(w) > budget {
            assert(chunks_of(w, budget).len() > 0);
        } else if cur.len() == 0 {
            lemma_wrap_acc_nonempty(ws.drop_first(), budget, w);
        } else if str_width(cur) + 1 + str_width(w) <= budget {
            lemma_wrap_acc_nonempty(ws.drop_first(), budget, cur + seq![' '] + w);
        } else {
        }
    }
}

proof fn lemma_wrap_acc_join(ws: Seq<Seq<char>>, budget: int, cur: Seq<char>)
    requires
        forall|j: int| 0 <= j < ws.len() ==> str_width(#[trigger] ws[j]) <= budget,
        forall|j: int| 0 <= j < ws.len() ==> (#[trigger] ws[j]).len() > 0,
    ensures
        join_spaces(wrap_acc(ws, budget, cur)) == if cur.len() == 0 {
            join_spaces(ws)
        } else {
            join_spaces(seq![cur] + ws)
        },
    decreases ws.len(),
{
    if ws.len() == 0 {
        if cur.len() > 0 {
            assert(seq![cur] + ws =~= seq![cur]);
        }
    } else {
        let w = ws[0];
        assert(str_width(w) <= budget);
        if cur.len() == 0 {
            lemma_wrap_acc_join(ws.drop_first(), budget, w);
            assert(seq![w] + ws.drop_first() =~= ws);
        } else if str_width(cur) + 1 + str_width(w) <= budget {
            let joined = cur + seq![' '] + w;
            lemma_wrap_acc_join(ws.drop_first(), budget, joined);
            assert(seq![joined] + ws.drop_first() =~= (seq![joined] + ws.drop_first()));
            let lhs = join_spaces(seq![joined] + ws.drop_first());
            let rhs = join_spaces(seq![cur] + ws);
            if ws.drop_first().len() == 0 {
                assert(lhs == joined);
                assert(seq![cur] + ws =~= seq![cur, w]);
                assert(join_spaces(seq![cur, w]) == seq![cur, w][0] + seq![' '] + join_spaces(
                    seq![cur, w].drop_first(),
                ));
                assert(seq![cur, w].drop_first() =~= seq![w]);
                assert(rhs == cur + seq![' '] + w);
            } else {
                assert((seq![joined] + ws.drop_first()).drop_first() =~= ws.drop_first());
                assert(lhs == joined + seq![' '] + join_spaces(ws.drop_first()));
                assert((seq![cur] + ws).drop_first() =~= ws);
                assert(rhs == cur + seq![' '] + join_spaces(ws));
                assert(join_spaces(ws) == w + seq![' '] + join_spaces(ws.drop_first()));
                assert(joined + seq![' '] + join_spaces(ws.drop_first()) =~= cur + seq![' '] + (w
                    + seq![' '] + join_spaces(ws.drop_first())));
            }
        } else {
            lemma_wrap_acc_join(ws.drop_first(), budget, w);
            assert(seq![w] + ws.drop_first() =~= ws);
            lemma_wrap_acc_nonempty(ws.drop_first(), budget, w);
            let rest = wrap_acc(ws.drop_first(), budget, w);
            assert(wrap_acc(ws, budget, cur) == seq![cur] + rest);
            assert((seq![cur] + rest).len() >= 2);
            assert((seq![cur] + rest).drop_first() =~= rest);
            assert(join_spaces(seq![cur] + rest) == cur + seq![' '] + join_spaces(rest));
            assert((seq![cur] + ws).drop_first() =~= ws);
            assert(join_spaces(seq![cur] + ws) == cur + seq![' '] + join_spaces(ws));
        }
    }
}

proof fn lemma_seq_views_push(ss: Seq<String>, s: String)
    ensures
        seq_views(ss.push(s)) == seq_views(ss).push(s@),
{
    assert(seq_views(ss.push(s)) =~= seq_views(ss).push(s@));
}

/// The whitespace-separated words of `text`, left to right.
fn split_words(text: &str) -> (words: Vec<String>)
    ensures
        seq_views(words@) == words_of(text@),
{
    let n = text.unicode_len();
    let mut out: Vec<String> = Vec::new();
    let mut cur = String::new();
    let mut cur_empty: bool = true;
    let mut i: usize = 0;
    proof {
        assert(text@.skip(0) =~= text@);
        assert(seq_views(out@) =~= Seq::<Seq<char>>::empty());
    }
    while i < n
        invariant
            i <= n,
            n == text@.len(),
            cur_empty <==> cur@.len() == 0,
            words_of(text@) == seq_views(out@) + words_acc(text@.skip(i as int), cur@),
        decreases n - i,
    {
        let c = text.get_char(i);
        proof {
            assert(text@.skip(i as int)[0] == text@[i as int]);
            assert(text@.skip(i as int).drop_first() =~= text@.skip(i as int + 1));
        }
        if is_space(c) {
            if !cur_empty {
                let ghost old_out = out@;
                let ghost old_cur = cur@;
                out.push(cur);
                cur = String::new();
                cur_empty = true;
                proof {
                    lemma_seq_views_push(old_out, out@[out@.len() - 1]);
                    assert(seq_views(old_out).push(old_cur) + words_acc(
                        text@.skip(i as int + 1),
                        Seq::empty(),
                    ) =~= seq_views(old_out) + (seq![old_cur] + words_acc(
                        text@.skip(i as int + 1),
                        Seq::empty(),
                    )));
                }
            }
        } else {
            let ghost old_cur = cur@;
            let cs = char_to_string(c);
            cur.append(cs.as_str());
            cur_empty = false;
            proof {
                assert(cur@ =~= old_cur.push(text@[i as int]));
            }
        }
        i = i + 1;
    }
    proof {
        assert(text@.skip(n as int) =~= Seq::<char>::empty());
    }
    if !cur_empty {
        let ghost old_out = out@;
        let ghost old_cur = cur@;
        out.push(cur);
        proof {
            lemma_seq_views_push(old_out, out@[out@.len() - 1]);
            assert(seq_views(old_out).push(old_cur) =~= seq_views(old_out) + seq![old_cur]);
        }
    }
    out
}

/// Wrap `text` into display lines no wider than `width` columns (at least
/// `MIN_WRAP_WIDTH` is always granted). The result is exactly the greedy
/// packing `wrap_lines`; every line fits the budget; and when every word
/// fits the budget on its own, joining the lines with single spaces gives
/// back the whitespace-collapsed word sequence of the input.
pub fn wrap_text(text: &str, width: usize) -> (lines: Vec<String>)
    ensures
        seq_views(lines@) == wrap_lines(text@, width as int),
        lines@.len() >= 1,
        forall|i: int|
            0 <= i < lines@.len() ==> str_width(#[trigger] lines@[i]@) <= effective_width(
                width as int,
            ),
        (forall|j: int|
            0 <= j < words_of(text@).len() ==> str_width(#[trigger] words_of(text@)[j])
                <= effective_width(width as int)) ==> join_spaces(seq_views(lines@)) == join_spaces(
            words_of(text@),
        ),
{
    let space_w = char_width(' ');
    let eff: usize = if width < MIN_WRAP_WIDTH {
        MIN_WRAP_WIDTH
    } else {
        width
    };
    let words = split_words(text);
    let ghost ws = words_of(text@);
    proof {
        lemma_words_acc_nonempty(text@, Seq::empty());
    }
    let mut out: Vec<String> = Vec::new();
    let mut cur = String::new();
    let mut cur_empty: bool = true;
    let mut cur_w: usize = 0;
    let mut k: usize = 0;
    proof {
        assert(seq_views(out@) =~= Seq::<Seq<char>>::empty());
        assert(ws.skip(0) =~= ws);
        assert(Seq::<Seq<char>>::empty() + wrap_acc(ws, eff as int, cur@) =~= wrap_acc(
            ws,
            eff as int,
            cur@,
        ));
    }
    while k < words.len()
        invariant
            k <= words@.len(),
            seq_views(words@) == ws,
            forall|j: int| 0 <= j < ws.len() ==> (#[trigger] ws[j]).len() > 0,
            space_w == char_display_width(' '),
            space_w == 1,
            eff >= MIN_WRAP_WIDTH,
            eff as int == effective_width(width as int),
            cur_empty <==> cur@.len() == 0,
            cur_w == str_width(cur@),
            cur_w <= eff,
            wrap_acc(ws, eff as int, Seq::empty()) == seq_views(out@) + wrap_acc(
                ws.skip(k as int),
                eff as int,
                cur@,
            ),
        decreases words@.len() - k,
    {
        let word = &words[k];
        let ghost w = word@;
        proof {
            assert(ws[k as int] == w);
            assert(ws.skip(k as int)[0] == w);
            assert(ws.skip(k as int).drop_first() =~= ws.skip(k as int + 1));
        }
        let mut word_w: usize = 0;
        let wide: bool = match text_width(word.as_str()) {
            Some(ww) => {
                if ww <= eff {
                    word_w = ww;
                    false
                } else {
                    true
                }
            },
            None => true,
        };
        if wide {
            // The word alone overflows a line: flush, then emit greedy chunks.
            if !cur_empty {
                let ghost old_out = out@;
                let ghost old_cur = cur@;
                out.push(cur);
                cur = String::new();
                cur_empty = true;
                cur_w = 0;
                proof {
                    lemma_seq_views_push(old_out, out@[out@.len() - 1]);
                    assert(seq_views(old_out) + (seq![old_cur] + chunks_of(w, eff as int)
                        + wrap_acc(ws.skip(k as int + 1), eff as int, Seq::empty())) =~= seq_views(
                        out@,
                    ) + (chunks_of(w, eff as int) + wrap_acc(
                        ws.skip(k as int + 1),
                        eff as int,
                        Seq::empty(),
                    )));
                }
            } else {
                proof {
                    assert(Seq::<Seq<char>>::empty() + chunks_of(w, eff as int) + wrap_acc(
                        ws.skip(k as int + 1),
                        eff as int,
                        Seq::empty(),
                    ) =~= chunks_of(w, eff as int) + wrap_acc(
                        ws.skip(k as int + 1),
                        eff as int,
                        Seq::empty(),
                    ));
                }
            }
            let m = word.as_str().unicode_len();
            let mut pos: usize = 0;
            proof {
                assert(w.skip(0) =~= w);
            }
            while pos < m
                invariant
                    pos <= m,
                    m == w.len(),
                    words@[k as int]@ == w,
                    k < words@.len(),
                    eff >= MIN_WRAP_WIDTH,
                    wrap_acc(ws, eff as int, Seq::empty()) == seq_views(out@) + (chunks_of(
                        w.skip(pos as int),
                        eff as int,
                    ) + wrap_acc(ws.skip(k as int + 1), eff as int, Seq::empty())),
                decreases m - pos,
            {
                let mut end: usize = pos;
                let mut budget: usize = eff;
                let mut fits: bool = true;
                while end < m && fits
                    invariant
                        pos <= end <= m,
                        m == w.len(),
                        words@[k as int]@ == w,
                        k < words@.len(),
                        budget <= eff,
                        chunk_end(w.skip(pos as int), eff as int) == (end - pos) + chunk_end(
                            w.skip(end as int),
                            budget as int,
                        ),
                        !fits ==> chunk_end(w.skip(end as int), budget as int) == 0,
                    decreases m - end, (if fits { 1int } else { 0int }),
                {
                    let wref = &words[k];
                    let c = wref.as_str().get_char(end);
                    let cw = char_width(c);
                    proof {
                        assert(w.skip(end as int)[0] == w[end as int]);
                        assert(w.skip(end as int).drop_first() =~= w.skip(end as int + 1));
                        assert(char_display_width(w[end as int]) == cw);
                    }
                    if cw > budget {
                        proof {
                            assert(chunk_end(w.skip(end as int), budget as int) == 0);
                        }
                        fits = false;
                    } else {
                        proof {
                            assert(chunk_end(w.skip(end as int), budget as int) == 1 + chunk_end(
                                w.skip(end as int + 1),
                                budget as int - cw as int,
                            ));
                        }
                        budget = budget - cw;
                        end = end + 1;
                    }
                }
                proof {
                    if end == m {
                        assert(w.skip(m as int) =~= Seq::<char>::empty());
                        assert(chunk_end(w.skip(end as int), budget as int) == 0);
                    }
                    assert(chunk_end(w.skip(pos as int), eff as int) == end - pos);
                }
                let end2: usize = if end == pos {
                    pos + 1
                } else {
                    end
                };
                proof {
                    assert(chunk_split(w.skip(pos as int), eff as int) == end2 - pos);
                }
                let chunk = String::from_str(words[k].as_str().substring_char(pos, end2));
                let ghost old_out = out@;
                out.push(chunk);
                proof {
                    lemma_seq_views_push(old_out, out@[out@.len() - 1]);
                    let ghost wp = w.skip(pos as int);
                    assert(wp.take(end2 - pos) =~= w.subrange(pos as int, end2 as int));
                    assert(wp.skip(end2 - pos) =~= w.skip(end2 as int));
                    assert(chunks_of(wp, eff as int) == seq![wp.take(end2 - pos)] + chunks_of(
                        w.skip(end2 as int),
                        eff as int,
                    ));
                    assert(seq_views(old_out) + (chunks_of(wp, eff as int) + wrap_acc(
                        ws.skip(k as int + 1),
                        eff as int,
                        Seq::empty(),
                    )) =~= seq_views(out@) + (chunks_of(w.skip(end2 as int), eff as int)
                        + wrap_acc(ws.skip(k as int + 1), eff as int, Seq::empty())));
                }
                pos = end2;
            }
            proof {
                assert(w.skip(m as int) =~= Seq::<char>::empty());
                assert(chunks_of(Seq::<char>::empty(), eff as int) =~= Seq::<Seq<char>>::empty());
                assert(seq_views(out@) + (Seq::<Seq<char>>::empty() + wrap_acc(
                    ws.skip(k as int + 1),
                    eff as int,
                    Seq::empty(),
                )) =~= seq_views(out@) + wrap_acc(ws.skip(k as int + 1), eff as int, Seq::empty()));
            }
        } else {
            // The word fits on a line of its own.
            if cur_empty {
                cur = word.clone();
                cur_empty = false;
                cur_w = word_w;
                proof {
                    assert(w.len() > 0);
                }
            } else if cur_w < eff && word_w <= eff - cur_w - 1 {
                let ghost old_cur = cur@;
                cur.append(" ");
                cur.append(word.as_str());
                cur_w = cur_w + 1 + word_w;
                proof {
                    reveal_strlit(" ");
                    assert(" "@ =~= seq![' ']);
                    assert(cur@ =~= old_cur + seq![' '] + w);
                    lemma_str_width_concat(old_cur + seq![' '], w);
                    lemma_str_width_concat(old_cur, seq![' ']);
                    assert(str_width(seq![' ']) == char_display_width(' ') + str_width(
                        seq![' '].drop_first(),
                    ));
                    assert(seq![' '].drop_first() =~= Seq::<char>::empty());
                    assert(str_width(cur@) == str_width(old_cur) + 1 + str_width(w));
                }
            } else {
                let ghost old_out = out@;
                let ghost old_cur = cur@;
                out.push(cur);
                cur = word.clone();
                cur_empty = false;
                cur_w = word_w;
                proof {
                    lemma_seq_views_push(old_out, out@[out@.len() - 1]);
                    assert(seq_views(old_out) + (seq![old_cur] + wrap_acc(
                        ws.skip(k as int + 1),
                        eff as int,
                        w,
                    )) =~= seq_views(out@) + wrap_acc(ws.skip(k as int + 1), eff as int, w));
                }
            }
        }
        k = k + 1;
    }
    proof {
        assert(ws.skip(ws.len() as int) =~= Seq::<Seq<char>>::empty());
    }
    if !cur_empty {
        let ghost old_out = out@;
        let ghost old_cur = cur@;
        out.push(cur);
        proof {
            lemma_seq_views_push(old_out, out@[out@.len() - 1]);
            assert(seq_views(old_out) + seq![old_cur] =~= seq_views(out@));
        }
    } else {
        proof {
            assert(seq_views(out@) + Seq::<Seq<char>>::empty() =~= seq_views(out@));
        }
    }
    if out.len() == 0 {
        out.push(String::new());
        proof {
            assert(seq_views(out@) =~= seq![Seq::<char>::empty()]);
        }
    }
    proof {
        let eff_i = effective_width(width as int);
        lemma_wrap_acc_width(ws, eff_i, Seq::empty());
        assert forall|i: int| 0 <= i < out@.len() implies str_width(#[trigger] out@[i]@)
            <= eff_i by {
            assert(out@[i]@ == seq_views(out@)[i]);
            if wrap_acc(ws, eff_i, Seq::empty()).len() == 0 {
                assert(seq_views(out@)[i] == Seq::<char>::empty());
            } else {
                assert(seq_views(out@)[i] == wrap_acc(ws, eff_i, Seq::empty())[i]);
            }
        }
        if forall|j: int| 0 <= j < ws.len() ==> str_width(#[trigger] ws[j]) <= eff_i {
            lemma_wrap_acc_join(ws, eff_i, Seq::empty());
            if wrap_acc(ws, eff_i, Seq::empty()).len() == 0 {
                if ws.len() > 0 {
                    lemma_wrap_acc_nonempty(ws, eff_i, Seq::empty());
                }
                assert(ws.len() == 0);
                assert(join_spaces(seq![Seq::<char>::empty()]) =~= Seq::<char>::empty());
            }
        }
    }
    out
}

} // verus!
