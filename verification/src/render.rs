//! Bubble construction: a message (or the loading indicator) becomes a
//! bordered, padded block of display lines, every line exactly as wide as
//! every other. Each line is a row of spans so the presentation layer can
//! colour borders, prefix and text independently.

use crate::clock::{clock_text, format_timestamp};
use crate::markup::{
    lemma_markup_roundtrip, lemma_run_views_push, parse_markdown_spans, parse_markup, run_views,
    runs_content, unparse_runs, RunStyle, StyledRun,
};
use crate::state::ChatMessage;
use crate::width::{
    char_display_width, char_to_string, char_width, lemma_str_width_bound, lemma_str_width_concat,
    lemma_str_width_push, str_width, text_width,
};
use crate::wrap::{effective_width, seq_views, wrap_lines, wrap_text};
use vstd::arithmetic::div_mod::{lemma_add_mod_noop, lemma_fundamental_div_mod};
use vstd::prelude::*;

verus! {

/// What one span of a rendered line is for.
#[derive(Debug, Clone, Copy)]
pub enum SpanKind {
    /// Border glyphs, including the header embedded in the top border.
    Border,
    /// The sender prefix at the start of a body line.
    Prefix,
    /// Message text carrying its markup style.
    Text(RunStyle),
    /// Blank columns used for alignment.
    Pad,
}

/// One span of a rendered line.
#[derive(Debug, Clone)]
pub struct UiSpan {
    pub text: String,
    pub kind: SpanKind,
}

/// The full text of a line, all spans concatenated.
pub open spec fn spans_text(spans: Seq<UiSpan>) -> Seq<char>
    decreases spans.len(),
{
    if spans.len() == 0 {
        Seq::empty()
    } else {
        spans[0].text@ + spans_text(spans.drop_first())
    }
}

/// The display width of a line.
pub open spec fn line_width(spans: Seq<UiSpan>) -> nat {
    str_width(spans_text(spans))
}

/// The message runs of a line, in order, without border, prefix or padding.
pub open spec fn text_runs(spans: Seq<UiSpan>) -> Seq<(Seq<char>, bool)>
    decreases spans.len(),
{
    if spans.len() == 0 {
        Seq::empty()
    } else {
        (match spans[0].kind {
            SpanKind::Text(st) => seq![(spans[0].text@, st is Bold)],
            _ => Seq::empty(),
        }) + text_runs(spans.drop_first())
    }
}

/// The larger of two numbers.
pub open spec fn int_max(a: int, b: int) -> int {
    if a > b {
        a
    } else {
        b
    }
}

/// One character repeated over a whole line segment.
pub open spec fn repeat_char(n: int, c: char) -> Seq<char> {
    Seq::new(n as nat, |i: int| c)
}

/// Blank columns.
pub open spec fn blanks(n: int) -> Seq<char> {
    repeat_char(n, ' ')
}

/// A horizontal stretch of border.
pub open spec fn dashes(n: int) -> Seq<char> {
    repeat_char(n, '─')
}

/// The full text of a bubble's top border: alignment blanks, the opening
/// corner, the header, and dashes out to the interior width.
pub open spec fn top_border_text(pad: int, header: Seq<char>, inner: int) -> Seq<char> {
    blanks(pad) + "╭─ "@ + header + " "@ + dashes(inner - str_width(header) - 1) + "╮"@
}

/// The full text of one body line: alignment blanks, the left border, the
/// prefix, the displayed runs, blanks out to the interior width, and the
/// right border.
pub open spec fn body_line_text(
    pad: int,
    prefix: Seq<char>,
    runs: Seq<(Seq<char>, bool)>,
    inner: int,
) -> Seq<char> {
    blanks(pad) + "│ "@ + prefix + runs_content(runs) + blanks(
        inner - str_width(prefix) - str_width(runs_content(runs)),
    ) + " │"@
}

/// The full text of a bubble's bottom border.
pub open spec fn bottom_border_text(pad: int, inner: int) -> Seq<char> {
    blanks(pad) + "╰"@ + dashes(inner + 2) + "╯"@
}

/// The widest body line: prefix plus displayed message text.
pub open spec fn max_body_width(prefix: Seq<char>, bodies: Seq<Seq<(Seq<char>, bool)>>) -> int
    decreases bodies.len(),
{
    if bodies.len() == 0 {
        0
    } else {
        int_max(
            str_width(prefix) as int + str_width(runs_content(bodies[0])) as int,
            max_body_width(prefix, bodies.drop_first()),
        )
    }
}

/// When every body's displayed text fits a cap, the widest body line is
/// bounded by the prefix and that cap.
pub proof fn lemma_max_body_width_bound(
    prefix: Seq<char>,
    bodies: Seq<Seq<(Seq<char>, bool)>>,
    cap: int,
)
    requires
        cap >= 0,
        forall|j: int|
            0 <= j < bodies.len() ==> str_width(runs_content(#[trigger] bodies[j])) <= cap,
    ensures
        max_body_width(prefix, bodies) <= str_width(prefix) + cap,
    decreases bodies.len(),
{
    if bodies.len() > 0 {
        let d = bodies.drop_first();
        assert(forall|j: int| 0 <= j < d.len() ==> #[trigger] d[j] == bodies[j + 1]);
        lemma_max_body_width_bound(prefix, d, cap);
    }
}

/// Interior columns of a bubble: room for the widest body line, and for the
/// header with one following dash. Body lines are bounded by the wrap
/// budget already; the header is never truncated, so a header wider than
/// the budget widens the bubble rather than tearing its border.
pub open spec fn bubble_inner_width(
    prefix: Seq<char>,
    header: Seq<char>,
    bodies: Seq<Seq<(Seq<char>, bool)>>,
) -> int {
    int_max(str_width(header) as int + 1, max_body_width(prefix, bodies))
}

/// Blank columns put before every line: a user bubble is pushed to the right
/// edge, two columns short; other bubbles stay at the left edge.
pub open spec fn bubble_left_pad(user: bool, area_width: int, inner: int) -> int {
    if user && area_width > inner + 6 {
        area_width - inner - 6
    } else {
        0
    }
}

/// The run models of a sequence of parsed lines.
pub open spec fn bodies_views(brs: Seq<Vec<StyledRun>>) -> Seq<Seq<(Seq<char>, bool)>> {
    brs.map_values(|v: Vec<StyledRun>| run_views(v@))
}

proof fn lemma_str_width_one(c: char)
    ensures
        str_width(seq![c]) == char_display_width(c),
{
    assert(seq![c][0] == c);
    assert(seq![c].drop_first() =~= Seq::<char>::empty());
    assert(str_width(seq![c]) == char_display_width(c) + str_width(seq![c].drop_first()));
}

proof fn lemma_str_width_two(a: char, b: char)
    ensures
        str_width(seq![a, b]) == char_display_width(a) + char_display_width(b),
{
    assert(seq![a, b].drop_first() =~= seq![b]);
    lemma_str_width_one(b);
}

proof fn lemma_str_width_three(a: char, b: char, c: char)
    ensures
        str_width(seq![a, b, c]) == char_display_width(a) + char_display_width(b)
            + char_display_width(c),
{
    assert(seq![a, b, c].drop_first() =~= seq![b, c]);
    lemma_str_width_two(b, c);
}

proof fn lemma_spans_text_push(sp: Seq<UiSpan>, x: UiSpan)
    ensures
        spans_text(sp.push(x)) == spans_text(sp) + x.text@,
    decreases sp.len(),
{
    if sp.len() == 0 {
        assert(sp.push(x).drop_first() =~= Seq::<UiSpan>::empty());
        assert(sp.push(x)[0] == x);
        assert(spans_text(sp.push(x)) == sp.push(x)[0].text@ + spans_text(
            sp.push(x).drop_first(),
        ));
        assert(x.text@ + Seq::<char>::empty() =~= x.text@);
        assert(spans_text(sp) + x.text@ =~= x.text@);
    } else {
        assert(sp.push(x).drop_first() =~= sp.drop_first().push(x));
        assert(sp.push(x)[0] == sp[0]);
        assert(spans_text(sp.push(x)) == sp.push(x)[0].text@ + spans_text(
            sp.push(x).drop_first(),
        ));
        assert(spans_text(sp) == sp[0].text@ + spans_text(sp.drop_first()));
        lemma_spans_text_push(sp.drop_first(), x);
        assert(sp[0].text@ + (spans_text(sp.drop_first()) + x.text@) =~= (sp[0].text@ + spans_text(
            sp.drop_first(),
        )) + x.text@);
    }
}

proof fn lemma_text_runs_push(sp: Seq<UiSpan>, x: UiSpan)
    ensures
        text_runs(sp.push(x)) == text_runs(sp) + (match x.kind {
            SpanKind::Text(st) => seq![(x.text@, st is Bold)],
            _ => Seq::<(Seq<char>, bool)>::empty(),
        }),
    decreases sp.len(),
{
    let tail: Seq<(Seq<char>, bool)> = match x.kind {
        SpanKind::Text(st) => seq![(x.text@, st is Bold)],
        _ => Seq::empty(),
    };
    if sp.len() == 0 {
        assert(sp.push(x).drop_first() =~= Seq::<UiSpan>::empty());
        assert(sp.push(x)[0] == x);
        assert(text_runs(sp.push(x)) == tail + text_runs(sp.push(x).drop_first()));
        assert(tail + Seq::<(Seq<char>, bool)>::empty() =~= tail);
        assert(text_runs(sp) + tail =~= tail);
    } else {
        assert(sp.push(x).drop_first() =~= sp.drop_first().push(x));
        assert(sp.push(x)[0] == sp[0]);
        lemma_text_runs_push(sp.drop_first(), x);
        let head: Seq<(Seq<char>, bool)> = match sp[0].kind {
            SpanKind::Text(st) => seq![(sp[0].text@, st is Bold)],
            _ => Seq::empty(),
        };
        assert(text_runs(sp.push(x)) == head + text_runs(sp.push(x).drop_first()));
        assert(text_runs(sp) == head + text_runs(sp.drop_first()));
        assert(head + (text_runs(sp.drop_first()) + tail) =~= (head + text_runs(sp.drop_first()))
            + tail);
    }
}

proof fn lemma_runs_content_push(rs: Seq<(Seq<char>, bool)>, r: (Seq<char>, bool))
    ensures
        runs_content(rs.push(r)) == runs_content(rs) + r.0,
    decreases rs.len(),
{
    if rs.len() == 0 {
        assert(rs.push(r).drop_first() =~= Seq::<(Seq<char>, bool)>::empty());
        assert(rs.push(r)[0] == r);
        assert(runs_content(rs.push(r)) == rs.push(r)[0].0 + runs_content(rs.push(r).drop_first()));
        assert(r.0 + Seq::<char>::empty() =~= r.0);
        assert(runs_content(rs) + r.0 =~= r.0);
    } else {
        assert(rs.push(r).drop_first() =~= rs.drop_first().push(r));
        assert(rs.push(r)[0] == rs[0]);
        assert(runs_content(rs.push(r)) == rs.push(r)[0].0 + runs_content(rs.push(r).drop_first()));
        assert(runs_content(rs) == rs[0].0 + runs_content(rs.drop_first()));
        lemma_runs_content_push(rs.drop_first(), r);
        assert(rs[0].0 + (runs_content(rs.drop_first()) + r.0) =~= (rs[0].0 + runs_content(
            rs.drop_first(),
        )) + r.0);
    }
}

proof fn lemma_runs_content_concat(a: Seq<(Seq<char>, bool)>, b: Seq<(Seq<char>, bool)>)
    ensures
        runs_content(a + b) == runs_content(a) + runs_content(b),
    decreases a.len(),
{
    if a.len() == 0 {
        assert(a + b =~= b);
        assert(runs_content(a) + runs_content(b) =~= runs_content(b));
    } else {
        assert((a + b).drop_first() =~= a.drop_first() + b);
        assert((a + b)[0] == a[0]);
        lemma_runs_content_concat(a.drop_first(), b);
        assert(a[0].0 + (runs_content(a.drop_first()) + runs_content(b)) =~= (a[0].0
            + runs_content(a.drop_first())) + runs_content(b));
    }
}

/// What runs display is never wider than what they were parsed from:
/// parsing only removes marker characters.
pub proof fn lemma_runs_content_width(rs: Seq<(Seq<char>, bool)>)
    ensures
        str_width(runs_content(rs)) <= str_width(unparse_runs(rs)),
    decreases rs.len(),
{
    if rs.len() > 0 {
        lemma_runs_content_width(rs.drop_first());
        lemma_str_width_concat(rs[0].0, runs_content(rs.drop_first()));
        if rs[0].1 {
            let deco = seq!['*', '*'] + rs[0].0 + seq!['*', '*'];
            lemma_str_width_concat(deco, unparse_runs(rs.drop_first()));
            lemma_str_width_concat(seq!['*', '*'] + rs[0].0, seq!['*', '*']);
            lemma_str_width_concat(seq!['*', '*'], rs[0].0);
        } else {
            lemma_str_width_concat(rs[0].0, unparse_runs(rs.drop_first()));
        }
    }
}

/// A string of the given display width: the fill character repeated, space
/// completing the remainder when the fill character is wider than one
/// column, and spaces alone when it has no width.
fn fill(n: usize, c: char) -> (s: String)
    ensures
        str_width(s@) == n,
        char_display_width(c) == 1 ==> s@ == repeat_char(n as int, c),
{
    let cw = char_width(c);
    let sp = char_width(' ');
    let cs = char_to_string(c);
    let sps = char_to_string(' ');
    let mut s = String::new();
    proof {
        assert(s@ =~= Seq::<char>::empty());
    }
    if cw > 0 {
        let k = n / cw;
        let r = n % cw;
        let mut i: usize = 0;
        while i < k
            invariant
                i <= k,
                cw == char_display_width(c),
                cw > 0,
                cs@ == seq![c],
                str_width(s@) == i * cw,
                cw == 1 ==> s@ == repeat_char(i as int, c),
            decreases k - i,
        {
            let ghost olds = s@;
            s.append(cs.as_str());
            proof {
                assert(s@ =~= olds.push(c));
                lemma_str_width_push(olds, c);
                assert((i + 1) * cw == i * cw + cw) by (nonlinear_arith);
                if cw == 1 {
                    assert(repeat_char(i as int + 1, c) =~= repeat_char(i as int, c).push(c));
                }
            }
            i = i + 1;
        }
        proof {
            if cw == 1 {
                assert((n as int) % 1 == 0);
                assert((n as int) / 1 == n as int);
            }
        }
        let mut j: usize = 0;
        while j < r
            invariant
                j <= r,
                sps@ == seq![' '],
                char_display_width(' ') == 1,
                cw == char_display_width(c),
                str_width(s@) == k * cw + j,
                cw == 1 ==> r == 0 && k == n && s@ == repeat_char(n as int, c),
            decreases r - j,
        {
            let ghost olds = s@;
            s.append(sps.as_str());
            proof {
                assert(s@ =~= olds.push(' '));
                lemma_str_width_push(olds, ' ');
            }
            j = j + 1;
        }
        proof {
            lemma_fundamental_div_mod(n as int, cw as int);
            assert(n as int == (cw as int) * (n as int / cw as int) + n as int % cw as int);
            assert(k as int == n as int / cw as int);
            assert(r as int == n as int % cw as int);
            assert((k as int) * (cw as int) == (cw as int) * (k as int)) by (nonlinear_arith);
            assert(str_width(s@) == n);
        }
    } else {
        let mut j: usize = 0;
        while j < n
            invariant
                j <= n,
                sps@ == seq![' '],
                char_display_width(' ') == 1,
                str_width(s@) == j,
            decreases n - j,
        {
            let ghost olds = s@;
            s.append(sps.as_str());
            proof {
                assert(s@ =~= olds.push(' '));
                lemma_str_width_push(olds, ' ');
            }
            j = j + 1;
        }
        proof {
            assert(str_width(s@) == n);
        }
    }
    s
}

/// The display width of a sequence of runs, or `None` only when it cannot be
/// held in a `usize`.
fn runs_width(runs: &Vec<StyledRun>) -> (r: Option<usize>)
    ensures
        r matches Some(w) ==> w == str_width(runs_content(run_views(runs@))),
        r is None ==> str_width(runs_content(run_views(runs@))) > usize::MAX,
{
    let ghost rv = run_views(runs@);
    let mut w: usize = 0;
    let mut i: usize = 0;
    proof {
        assert(rv.take(0) =~= Seq::<(Seq<char>, bool)>::empty());
    }
    while i < runs.len()
        invariant
            i <= runs@.len(),
            rv == run_views(runs@),
            rv.len() == runs@.len(),
            w == str_width(runs_content(rv.take(i as int))),
        decreases runs@.len() - i,
    {
        let tw_opt = text_width(runs[i].text.as_str());
        proof {
            assert(rv[i as int] == (runs@[i as int].text@, runs@[i as int].style is Bold));
            assert(rv.take(i as int + 1) =~= rv.take(i as int).push(rv[i as int]));
            lemma_runs_content_push(rv.take(i as int), rv[i as int]);
            lemma_str_width_concat(runs_content(rv.take(i as int)), rv[i as int].0);
            assert(rv =~= rv.take(i as int + 1) + rv.skip(i as int + 1));
            lemma_runs_content_concat(rv.take(i as int + 1), rv.skip(i as int + 1));
            lemma_str_width_concat(
                runs_content(rv.take(i as int + 1)),
                runs_content(rv.skip(i as int + 1)),
            );
        }
        match tw_opt {
            Some(tw) => {
                if w > usize::MAX - tw {
                    return None;
                }
                w = w + tw;
            },
            None => {
                return None;
            },
        }
        i = i + 1;
    }
    proof {
        assert(rv.take(runs@.len() as int) =~= rv);
    }
    Some(w)
}

/// Assemble one bubble: a top border carrying the header, one body line per
/// run row (left border, prefix, the runs, padding to the interior width,
/// right border), and a bottom border; a user bubble is right-aligned by
/// leading blanks on every line. Each line's full text is fixed by the
/// contract, and all lines have the same display width.
fn build_bubble(
    body_runs: &Vec<Vec<StyledRun>>,
    header: &str,
    prefix: &str,
    user: bool,
    area_width: u16,
) -> (lines: Vec<Vec<UiSpan>>)
    requires
        str_width(header@) <= 0x10000,
        str_width(prefix@) <= 0x100,
        forall|i: int|
            0 <= i < body_runs@.len() ==> str_width(
                runs_content(run_views(#[trigger] body_runs@[i]@)),
            ) <= 0x10000,
    ensures
        lines@.len() == body_runs@.len() + 2,
        forall|i: int|
            1 <= i < lines@.len() - 1 ==> text_runs(#[trigger] lines@[i]@) == run_views(
                body_runs@[i - 1]@,
            ),
        text_runs(lines@[0]@) == Seq::<(Seq<char>, bool)>::empty(),
        text_runs(lines@[lines@.len() - 1]@) == Seq::<(Seq<char>, bool)>::empty(),
        ({
            let inner = bubble_inner_width(prefix@, header@, bodies_views(body_runs@));
            let pad = bubble_left_pad(user, area_width as int, inner);
            &&& forall|i: int|
                0 <= i < lines@.len() ==> line_width(#[trigger] lines@[i]@) == pad + inner + 4
            &&& spans_text(lines@[0]@) == top_border_text(pad, header@, inner)
            &&& forall|i: int|
                1 <= i < lines@.len() - 1 ==> spans_text(#[trigger] lines@[i]@) == body_line_text(
                    pad,
                    prefix@,
                    run_views(body_runs@[i - 1]@),
                    inner,
                )
            &&& spans_text(lines@[lines@.len() - 1]@) == bottom_border_text(pad, inner)
        }),
{
    let ghost bodies = bodies_views(body_runs@);
    let sp = char_width(' ');
    let wtl = char_width('╭');
    let wh = char_width('─');
    let wtr = char_width('╮');
    let wv = char_width('│');
    let wbl = char_width('╰');
    let wbr = char_width('╯');
    proof {
        assert(sp == 1 && wtl == 1 && wh == 1 && wtr == 1 && wv == 1 && wbl == 1 && wbr == 1);
    }
    let hw = match text_width(header) {
        Some(x) => x,
        None => 0,
    };
    proof {
        assert(hw == str_width(header@));
    }
    let pw = match text_width(prefix) {
        Some(x) => x,
        None => 0,
    };
    proof {
        assert(pw == str_width(prefix@));
    }

    // Measure every body line and settle the interior width.
    let mut widths: Vec<usize> = Vec::new();
    let mut inner: usize = hw + 1;
    let mut i: usize = 0;
    proof {
        assert(bodies.skip(0) =~= bodies);
    }
    while i < body_runs.len()
        invariant
            i <= body_runs@.len(),
            bodies == bodies_views(body_runs@),
            bodies.len() == body_runs@.len(),
            forall|j: int|
                0 <= j < body_runs@.len() ==> str_width(
                    runs_content(run_views(#[trigger] body_runs@[j]@)),
                ) <= 0x10000,
            pw == str_width(prefix@),
            pw <= 0x100,
            hw == str_width(header@),
            hw <= 0x10000,
            widths@.len() == i,
            forall|j: int|
                0 <= j < i ==> #[trigger] widths@[j] == pw + str_width(runs_content(bodies[j])),
            forall|j: int| 0 <= j < i ==> #[trigger] widths@[j] <= inner,
            hw + 1 <= inner,
            inner <= 0x10200,
            bubble_inner_width(prefix@, header@, bodies) == int_max(
                inner as int,
                max_body_width(prefix@, bodies.skip(i as int)),
            ),
        decreases body_runs@.len() - i,
    {
        let rw = match runs_width(&body_runs[i]) {
            Some(x) => x,
            None => 0,
        };
        proof {
            assert(bodies[i as int] == run_views(body_runs@[i as int]@));
            assert(rw == str_width(runs_content(bodies[i as int])));
        }
        let w = pw + rw;
        widths.push(w);
        proof {
            assert(bodies.skip(i as int)[0] == bodies[i as int]);
            assert(bodies.skip(i as int).drop_first() =~= bodies.skip(i as int + 1));
        }
        if w > inner {
            inner = w;
        }
        i = i + 1;
    }
    proof {
        assert(bodies.skip(bodies.len() as int) =~= Seq::<Seq<(Seq<char>, bool)>>::empty());
        assert(inner as int == bubble_inner_width(prefix@, header@, bodies));
    }
    let ghost inner_s = inner as int;
    let ghost padw_s = bubble_left_pad(user, area_width as int, inner_s);

    let area = area_width as usize;
    let left_pad: usize = if user && area > inner + 6 {
        area - inner - 6
    } else {
        0
    };
    proof {
        assert(left_pad as int == padw_s);
    }

    let mut lines: Vec<Vec<UiSpan>> = Vec::new();

    // Top border with the header inside it.
    let mut top: Vec<UiSpan> = Vec::new();
    let lp0 = fill(left_pad, ' ');
    let ghost lp0v = lp0@;
    top.push(UiSpan { text: lp0, kind: SpanKind::Pad });
    let mut tb = String::from_str("╭─ ");
    tb.append(header);
    tb.append(" ");
    let tf = fill(inner - (hw + 1), '─');
    tb.append(tf.as_str());
    tb.append("╮");
    let ghost tbv = tb@;
    top.push(UiSpan { text: tb, kind: SpanKind::Border });
    lines.push(top);
    proof {
        let e: Seq<UiSpan> = Seq::empty();
        lemma_spans_text_push(e, lines@[0]@[0]);
        lemma_spans_text_push(e.push(lines@[0]@[0]), lines@[0]@[1]);
        lemma_text_runs_push(e, lines@[0]@[0]);
        lemma_text_runs_push(e.push(lines@[0]@[0]), lines@[0]@[1]);
        assert(lines@[0]@ =~= e.push(lines@[0]@[0]).push(lines@[0]@[1]));
        assert(text_runs(lines@[0]@) =~= Seq::<(Seq<char>, bool)>::empty());
        assert(spans_text(lines@[0]@) =~= lp0v + tbv);
        reveal_strlit("╭─ ");
        reveal_strlit(" ");
        reveal_strlit("╮");
        assert("╭─ "@ =~= seq!['╭', '─', ' ']);
        assert(" "@ =~= seq![' ']);
        assert("╮"@ =~= seq!['╮']);
        lemma_str_width_three('╭', '─', ' ');
        lemma_str_width_one(' ');
        lemma_str_width_one('╮');
        lemma_str_width_concat(lp0v, tbv);
        lemma_str_width_concat("╭─ "@ + header@ + " "@ + tf@, "╮"@);
        lemma_str_width_concat("╭─ "@ + header@ + " "@, tf@);
        lemma_str_width_concat("╭─ "@ + header@, " "@);
        lemma_str_width_concat("╭─ "@, header@);
        assert(line_width(lines@[0]@) == padw_s + inner_s + 4);
        assert(lp0v == blanks(left_pad as int));
        assert(tf@ == dashes(inner as int - hw - 1));
        assert(spans_text(lines@[0]@) =~= top_border_text(padw_s, header@, inner_s));
    }

    // One body line per run row.
    let mut bi: usize = 0;
    while bi < body_runs.len()
        invariant
            bi <= body_runs@.len(),
            lines@.len() == bi + 1,
            bodies == bodies_views(body_runs@),
            bodies.len() == body_runs@.len(),
            widths@.len() == body_runs@.len(),
            forall|j: int|
                0 <= j < body_runs@.len() ==> #[trigger] widths@[j] == pw + str_width(
                    runs_content(bodies[j]),
                ),
            forall|j: int| 0 <= j < body_runs@.len() ==> #[trigger] widths@[j] <= inner,
            pw == str_width(prefix@),
            inner <= 0x10200,
            inner as int == inner_s,
            left_pad as int == padw_s,
            sp == 1,
            char_display_width(' ') == 1,
            char_display_width('│') == 1,
            forall|j: int|
                1 <= j < lines@.len() ==> text_runs(#[trigger] lines@[j]@) == run_views(
                    body_runs@[j - 1]@,
                ),
            text_runs(lines@[0]@) == Seq::<(Seq<char>, bool)>::empty(),
            forall|j: int|
                0 <= j < lines@.len() ==> line_width(#[trigger] lines@[j]@) == padw_s + inner_s
                    + 4,
            spans_text(lines@[0]@) == top_border_text(padw_s, header@, inner_s),
            forall|j: int|
                1 <= j < lines@.len() ==> spans_text(#[trigger] lines@[j]@) == body_line_text(
                    padw_s,
                    prefix@,
                    run_views(body_runs@[j - 1]@),
                    inner_s,
                ),
        decreases body_runs@.len() - bi,
    {
        let runs = &body_runs[bi];
        let mut ln: Vec<UiSpan> = Vec::new();
        let lp = fill(left_pad, ' ');
        let ghost lpv = lp@;
        ln.push(UiSpan { text: lp, kind: SpanKind::Pad });
        ln.push(UiSpan { text: String::from_str("│ "), kind: SpanKind::Border });
        ln.push(UiSpan { text: String::from_str(prefix), kind: SpanKind::Prefix });
        proof {
            let e: Seq<UiSpan> = Seq::empty();
            lemma_spans_text_push(e, ln@[0]);
            lemma_spans_text_push(e.push(ln@[0]), ln@[1]);
            lemma_spans_text_push(e.push(ln@[0]).push(ln@[1]), ln@[2]);
            lemma_text_runs_push(e, ln@[0]);
            lemma_text_runs_push(e.push(ln@[0]), ln@[1]);
            lemma_text_runs_push(e.push(ln@[0]).push(ln@[1]), ln@[2]);
            assert(ln@ =~= e.push(ln@[0]).push(ln@[1]).push(ln@[2]));
            assert(spans_text(ln@) =~= lpv + "│ "@ + prefix@);
            assert(text_runs(ln@) =~= Seq::<(Seq<char>, bool)>::empty());
            assert(run_views(runs@).take(0) =~= Seq::<(Seq<char>, bool)>::empty());
            assert(runs_content(run_views(runs@).take(0)) =~= Seq::<char>::empty());
            assert(lpv + "│ "@ + prefix@ + Seq::<char>::empty() =~= lpv + "│ "@ + prefix@);
        }
        let ghost base = lpv + "│ "@ + prefix@;
        let mut ri: usize = 0;
        while ri < runs.len()
            invariant
                ri <= runs@.len(),
                spans_text(ln@) == base + runs_content(run_views(runs@).take(ri as int)),
                text_runs(ln@) == run_views(runs@).take(ri as int),
            decreases runs@.len() - ri,
        {
            let span = UiSpan { text: runs[ri].text.clone(), kind: SpanKind::Text(runs[ri].style) };
            let ghost oldln = ln@;
            ln.push(span);
            proof {
                let rv = run_views(runs@);
                assert(rv[ri as int] == (runs@[ri as int].text@, runs@[ri as int].style is Bold));
                lemma_spans_text_push(oldln, ln@[ln@.len() - 1]);
                lemma_text_runs_push(oldln, ln@[ln@.len() - 1]);
                assert(rv.take(ri as int + 1) =~= rv.take(ri as int).push(rv[ri as int]));
                lemma_runs_content_push(rv.take(ri as int), rv[ri as int]);
                assert(text_runs(ln@) =~= rv.take(ri as int + 1));
                assert(spans_text(ln@) =~= base + runs_content(rv.take(ri as int + 1)));
            }
            ri = ri + 1;
        }
        proof {
            assert(run_views(runs@).take(runs@.len() as int) =~= run_views(runs@));
        }
        let wbi = widths[bi];
        let rp = fill(inner - wbi, ' ');
        let ghost rpv = rp@;
        let ghost mid = ln@;
        ln.push(UiSpan { text: rp, kind: SpanKind::Pad });
        ln.push(UiSpan { text: String::from_str(" │"), kind: SpanKind::Border });
        let ghost lnv = ln@;
        let ghost oldlines = lines@;
        lines.push(ln);
        proof {
            lemma_spans_text_push(mid, lnv[lnv.len() - 2]);
            lemma_spans_text_push(mid.push(lnv[lnv.len() - 2]), lnv[lnv.len() - 1]);
            lemma_text_runs_push(mid, lnv[lnv.len() - 2]);
            lemma_text_runs_push(mid.push(lnv[lnv.len() - 2]), lnv[lnv.len() - 1]);
            assert(lnv =~= mid.push(lnv[lnv.len() - 2]).push(lnv[lnv.len() - 1]));
            assert(text_runs(lnv) =~= run_views(runs@));
            assert(run_views(runs@) == run_views(body_runs@[bi as int]@));
            assert(spans_text(lnv) =~= base + runs_content(run_views(runs@)) + rpv + " │"@);
            assert forall|j: int| 1 <= j < lines@.len() implies text_runs(#[trigger] lines@[j]@)
                == run_views(body_runs@[j - 1]@) by {
                if j < oldlines.len() {
                    assert(lines@[j] == oldlines[j]);
                } else {
                    assert(lines@[j]@ == lnv);
                }
            }
            reveal_strlit("│ ");
            reveal_strlit(" │");
            assert("│ "@ =~= seq!['│', ' ']);
            assert(" │"@ =~= seq![' ', '│']);
            lemma_str_width_two('│', ' ');
            lemma_str_width_two(' ', '│');
            lemma_str_width_concat(base + runs_content(run_views(runs@)) + rpv, " │"@);
            lemma_str_width_concat(base + runs_content(run_views(runs@)), rpv);
            lemma_str_width_concat(base, runs_content(run_views(runs@)));
            lemma_str_width_concat(lpv + "│ "@, prefix@);
            lemma_str_width_concat(lpv, "│ "@);
            assert(wbi == pw + str_width(runs_content(bodies[bi as int])));
            assert(runs_content(run_views(runs@)) == runs_content(bodies[bi as int]));
            assert(line_width(lnv) == padw_s + inner_s + 4);
            assert forall|j: int| 0 <= j < lines@.len() implies line_width(
                #[trigger] lines@[j]@,
            ) == padw_s + inner_s + 4 by {
                if j < oldlines.len() {
                    assert(lines@[j] == oldlines[j]);
                } else {
                    assert(lines@[j]@ == lnv);
                }
            }
            assert(lpv == blanks(left_pad as int));
            assert(rpv == blanks(inner as int - wbi));
            assert(spans_text(lnv) =~= body_line_text(
                padw_s,
                prefix@,
                run_views(runs@),
                inner_s,
            ));
            assert forall|j: int| 1 <= j < lines@.len() implies spans_text(#[trigger] lines@[j]@)
                == body_line_text(padw_s, prefix@, run_views(body_runs@[j - 1]@), inner_s) by {
                if j < oldlines.len() {
                    assert(lines@[j] == oldlines[j]);
                } else {
                    assert(lines@[j]@ == lnv);
                }
            }
        }
        bi = bi + 1;
    }

    // Bottom border.
    let mut bot: Vec<UiSpan> = Vec::new();
    let lpb = fill(left_pad, ' ');
    let ghost lpbv = lpb@;
    bot.push(UiSpan { text: lpb, kind: SpanKind::Pad });
    let mut bb = String::from_str("╰");
    let bf = fill(inner + 2, '─');
    bb.append(bf.as_str());
    bb.append("╯");
    let ghost bbv = bb@;
    bot.push(UiSpan { text: bb, kind: SpanKind::Border });
    let ghost botv = bot@;
    let ghost oldlines = lines@;
    lines.push(bot);
    proof {
        let e: Seq<UiSpan> = Seq::empty();
        lemma_spans_text_push(e, botv[0]);
        lemma_spans_text_push(e.push(botv[0]), botv[1]);
        lemma_text_runs_push(e, botv[0]);
        lemma_text_runs_push(e.push(botv[0]), botv[1]);
        assert(botv =~= e.push(botv[0]).push(botv[1]));
        assert(text_runs(botv) =~= Seq::<(Seq<char>, bool)>::empty());
        assert(spans_text(botv) =~= lpbv + bbv);
        assert forall|j: int| 1 <= j < lines@.len() - 1 implies text_runs(#[trigger] lines@[j]@)
            == run_views(body_runs@[j - 1]@) by {
            assert(lines@[j] == oldlines[j]);
        }
        reveal_strlit("╰");
        reveal_strlit("╯");
        assert("╰"@ =~= seq!['╰']);
        assert("╯"@ =~= seq!['╯']);
        lemma_str_width_one('╰');
        lemma_str_width_one('╯');
        lemma_str_width_concat(lpbv, bbv);
        lemma_str_width_concat("╰"@ + bf@, "╯"@);
        lemma_str_width_concat("╰"@, bf@);
        assert(line_width(botv) == padw_s + inner_s + 4);
        assert forall|j: int| 0 <= j < lines@.len() implies line_width(#[trigger] lines@[j]@)
            == padw_s + inner_s + 4 by {
            if j < oldlines.len() {
                assert(lines@[j] == oldlines[j]);
            } else {
                assert(lines@[j]@ == botv);
            }
        }
        assert(lpbv == blanks(left_pad as int));
        assert(bf@ == dashes(inner as int + 2));
        assert(spans_text(botv) =~= bottom_border_text(padw_s, inner_s));
        assert(lines@[0] == oldlines[0]);
        assert forall|j: int| 1 <= j < lines@.len() - 1 implies spans_text(#[trigger] lines@[j]@)
            == body_line_text(padw_s, prefix@, run_views(body_runs@[j - 1]@), inner_s) by {
            assert(lines@[j] == oldlines[j]);
        }
    }
    lines
}

/// Columns reserved around a message bubble: the wrap budget for its text.
pub open spec fn message_wrap_budget(is_user: bool, area_width: u16) -> int {
    if is_user {
        if area_width >= 10 {
            area_width - 10
        } else {
            0
        }
    } else {
        if area_width >= 8 {
            area_width - 8
        } else {
            0
        }
    }
}

/// The clock part of a bubble header.
pub open spec fn stamp_text(ts: Option<u64>) -> Seq<char> {
    match ts {
        Some(t) => clock_text(t),
        None => "??:??:??"@,
    }
}

/// The header label of a message bubble: the sender tag and the timestamp.
pub open spec fn header_text(is_user: bool, ts: Option<u64>) -> Seq<char> {
    if is_user {
        "You "@ + stamp_text(ts)
    } else {
        "🤖 Gemini "@ + stamp_text(ts)
    }
}

/// The prefix put before every body line of a message bubble.
pub open spec fn prefix_text(is_user: bool) -> Seq<char> {
    if is_user {
        "You: "@
    } else {
        Seq::empty()
    }
}

/// The parsed runs of every wrapped line of a message.
pub open spec fn message_bodies(content: Seq<char>, budget: int) -> Seq<Seq<(Seq<char>, bool)>> {
    wrap_lines(content, budget).map_values(|l: Seq<char>| parse_markup(l))
}

/// Render one chat message as a bubble: its content wrapped to the area's
/// budget, each line parsed for emphasis, the whole framed by borders
/// carrying the sender tag and timestamp, and right-aligned for the user.
pub fn render_message_bubble(message: &ChatMessage, area_width: u16) -> (lines: Vec<Vec<UiSpan>>)
    ensures
        ({
            let budget = message_wrap_budget(message.is_user, area_width);
            let wrapped = wrap_lines(message.content@, budget);
            let header = header_text(message.is_user, message.timestamp_secs);
            let prefix = prefix_text(message.is_user);
            let inner = bubble_inner_width(
                prefix,
                header,
                message_bodies(message.content@, budget),
            );
            let pad = bubble_left_pad(message.is_user, area_width as int, inner);
            &&& lines@.len() == wrapped.len() + 2
            &&& forall|i: int|
                1 <= i < lines@.len() - 1 ==> text_runs(#[trigger] lines@[i]@) == parse_markup(
                    wrapped[i - 1],
                )
            &&& text_runs(lines@[0]@) == Seq::<(Seq<char>, bool)>::empty()
            &&& text_runs(lines@[lines@.len() - 1]@) == Seq::<(Seq<char>, bool)>::empty()
            &&& forall|i: int|
                0 <= i < lines@.len() ==> line_width(#[trigger] lines@[i]@) == pad + inner + 4
            &&& spans_text(lines@[0]@) == top_border_text(pad, header, inner)
            &&& forall|i: int|
                1 <= i < lines@.len() - 1 ==> spans_text(#[trigger] lines@[i]@) == body_line_text(
                    pad,
                    prefix,
                    parse_markup(wrapped[i - 1]),
                    inner,
                )
            &&& spans_text(lines@[lines@.len() - 1]@) == bottom_border_text(pad, inner)
            &&& inner <= int_max(
                str_width(header) as int + 1,
                str_width(prefix) as int + effective_width(budget),
            )
        }),
{
    let budget: usize = if message.is_user {
        if area_width >= 10 {
            (area_width - 10) as usize
        } else {
            0
        }
    } else {
        if area_width >= 8 {
            (area_width - 8) as usize
        } else {
            0
        }
    };
    let ghost budget_s = message_wrap_budget(message.is_user, area_width);
    proof {
        assert(budget as int == budget_s);
    }
    let wrapped = wrap_text(message.content.as_str(), budget);
    let ghost wl = wrap_lines(message.content@, budget_s);
    proof {
        assert(seq_views(wrapped@) == wl);
        assert forall|j: int| 0 <= j < wl.len() implies str_width(#[trigger] wl[j])
            <= effective_width(budget_s) by {
            assert(wl[j] == wrapped@[j]@);
        }
    }
    let mut body_runs: Vec<Vec<StyledRun>> = Vec::new();
    let mut i: usize = 0;
    while i < wrapped.len()
        invariant
            i <= wrapped@.len(),
            seq_views(wrapped@) == wl,
            wl.len() == wrapped@.len(),
            body_runs@.len() == i,
            forall|j: int|
                0 <= j < i ==> run_views(#[trigger] body_runs@[j]@) == parse_markup(wl[j]),
        decreases wrapped@.len() - i,
    {
        let runs = parse_markdown_spans(wrapped[i].as_str());
        let ghost old_brs = body_runs@;
        body_runs.push(runs);
        proof {
            assert(wrapped@[i as int]@ == wl[i as int]);
            assert forall|j: int| 0 <= j < i + 1 implies run_views(#[trigger] body_runs@[j]@)
                == parse_markup(wl[j]) by {
                if j < i {
                    assert(body_runs@[j] == old_brs[j]);
                }
            }
        }
        i = i + 1;
    }
    let stamp = format_timestamp(message.timestamp_secs);
    let mut header = if message.is_user {
        String::from_str("You ")
    } else {
        String::from_str("🤖 Gemini ")
    };
    header.append(stamp.as_str());
    let prefix: &str = if message.is_user {
        "You: "
    } else {
        ""
    };
    proof {
        assert(header@ == header_text(message.is_user, message.timestamp_secs));
        reveal_strlit("You ");
        reveal_strlit("🤖 Gemini ");
        reveal_strlit("??:??:??");
        assert(header@.len() <= 18);
        lemma_str_width_bound(header@);
        reveal_strlit("You: ");
        reveal_strlit("");
        assert(""@ =~= Seq::<char>::empty());
        assert(prefix@ == prefix_text(message.is_user));
        lemma_str_width_bound(prefix@);
        assert forall|j: int| 0 <= j < body_runs@.len() implies str_width(
            runs_content(run_views(#[trigger] body_runs@[j]@)),
        ) <= effective_width(budget_s) by {
            assert(run_views(body_runs@[j]@) == parse_markup(wl[j]));
            lemma_runs_content_width(parse_markup(wl[j]));
            lemma_markup_roundtrip(wl[j]);
            assert(str_width(wl[j]) <= effective_width(budget_s));
        }
        assert(effective_width(budget_s) <= 0xFFFF);
    }
    let lines = build_bubble(&body_runs, header.as_str(), prefix, message.is_user, area_width);
    proof {
        let bodies = bodies_views(body_runs@);
        assert(bodies =~= message_bodies(message.content@, budget_s));
        assert forall|j: int| 0 <= j < bodies.len() implies str_width(
            runs_content(#[trigger] bodies[j]),
        ) <= effective_width(budget_s) by {
            assert(bodies[j] == run_views(body_runs@[j]@));
        }
        lemma_max_body_width_bound(prefix@, bodies, effective_width(budget_s));
    }
    lines
}

/// The spinner glyph shown for a given animation frame.
pub open spec fn spinner_glyph_spec(frame: int) -> char {
    let k = frame % 10;
    if k == 0 {
        '⠋'
    } else if k == 1 {
        '⠙'
    } else if k == 2 {
        '⠹'
    } else if k == 3 {
        '⠸'
    } else if k == 4 {
        '⠼'
    } else if k == 5 {
        '⠴'
    } else if k == 6 {
        '⠦'
    } else if k == 7 {
        '⠧'
    } else if k == 8 {
        '⠇'
    } else {
        '⠏'
    }
}

/// The spinner glyph cycling with the animation counter.
pub fn spinner_glyph(frame: usize) -> (c: char)
    ensures
        c == spinner_glyph_spec(frame as int),
{
    let k = frame % 10;
    if k == 0 {
        '⠋'
    } else if k == 1 {
        '⠙'
    } else if k == 2 {
        '⠹'
    } else if k == 3 {
        '⠸'
    } else if k == 4 {
        '⠼'
    } else if k == 5 {
        '⠴'
    } else if k == 6 {
        '⠦'
    } else if k == 7 {
        '⠧'
    } else if k == 8 {
        '⠇'
    } else {
        '⠏'
    }
}

/// The body text of the loading bubble for a given animation frame.
pub open spec fn loading_text(frame: int) -> Seq<char> {
    seq![spinner_glyph_spec(frame)] + " Processing your message..."@
}

/// Render the bubble shown while a reply is outstanding: a spinner line
/// under a waiting header, framed like a message bubble and left-aligned.
pub fn render_loading_bubble(animation_frame: usize) -> (lines: Vec<Vec<UiSpan>>)
    ensures
        lines@.len() == 3,
        text_runs(lines@[1]@) == seq![(loading_text(animation_frame as int), false)],
        text_runs(lines@[0]@) == Seq::<(Seq<char>, bool)>::empty(),
        text_runs(lines@[2]@) == Seq::<(Seq<char>, bool)>::empty(),
        ({
            let inner = bubble_inner_width(
                Seq::empty(),
                "Gemini is thinking..."@,
                seq![seq![(loading_text(animation_frame as int), false)]],
            );
            &&& forall|i: int|
                0 <= i < lines@.len() ==> line_width(#[trigger] lines@[i]@) == inner + 4
            &&& spans_text(lines@[0]@) == top_border_text(0, "Gemini is thinking..."@, inner)
            &&& spans_text(lines@[1]@) == body_line_text(
                0,
                Seq::empty(),
                seq![(loading_text(animation_frame as int), false)],
                inner,
            )
            &&& spans_text(lines@[2]@) == bottom_border_text(0, inner)
        }),
{
    let g = spinner_glyph(animation_frame);
    let mut t = char_to_string(g);
    t.append(" Processing your message...");
    let ghost tv = t@;
    let mut row: Vec<StyledRun> = Vec::new();
    row.push(StyledRun { text: t, style: RunStyle::Plain });
    let mut body: Vec<Vec<StyledRun>> = Vec::new();
    body.push(row);
    proof {
        assert(tv =~= loading_text(animation_frame as int));
        assert(run_views(body@[0]@) =~= seq![(tv, false)]);
        let rs = seq![(tv, false)];
        assert(rs[0] == (tv, false));
        assert(rs.drop_first() =~= Seq::<(Seq<char>, bool)>::empty());
        assert(runs_content(rs) == rs[0].0 + runs_content(rs.drop_first()));
        assert(runs_content(rs) =~= tv);
        reveal_strlit(" Processing your message...");
        assert(tv.len() == 28);
        lemma_str_width_bound(tv);
        assert forall|j: int| 0 <= j < body@.len() implies str_width(
            runs_content(run_views(#[trigger] body@[j]@)),
        ) <= 0x10000 by {
            assert(body@[j] == body@[0]);
        }
        reveal_strlit("Gemini is thinking...");
        assert("Gemini is thinking..."@.len() == 21);
        lemma_str_width_bound("Gemini is thinking..."@);
        reveal_strlit("");
        assert(""@ =~= Seq::<char>::empty());
    }
    let lines = build_bubble(&body, "Gemini is thinking...", "", false, 0);
    proof {
        assert(bodies_views(body@) =~= seq![seq![(loading_text(animation_frame as int), false)]]);
        assert(run_views(body@[0]@) == seq![(loading_text(animation_frame as int), false)]);
        let inner = bubble_inner_width(
            Seq::empty(),
            "Gemini is thinking..."@,
            seq![seq![(loading_text(animation_frame as int), false)]],
        );
        assert(bubble_left_pad(false, 0, inner) == 0);
    }
    lines
}

/// The palette slot of one title character: the glyph's position shifted by
/// a fifth of the animation counter, cycling through the palette.
pub fn title_color_index(position: usize, frame: usize, palette_len: usize) -> (idx: usize)
    requires
        palette_len > 0,
    ensures
        idx < palette_len,
        idx as int == (position + frame / 5) % (palette_len as int),
{
    let a = position % palette_len;
    let b = (frame / 5) % palette_len;
    let idx = if b < palette_len - a {
        a + b
    } else {
        b - (palette_len - a)
    };
    proof {
        lemma_add_mod_noop(position as int, (frame / 5) as int, palette_len as int);
        let p = palette_len as int;
        let s = a as int + b as int;
        if b < palette_len - a {
            vstd::arithmetic::div_mod::lemma_small_mod((a + b) as nat, palette_len as nat);
        } else {
            assert(p <= s);
            assert(s < 2 * p);
            lemma_fundamental_div_mod(s, p);
            assert(p > 0 && p <= s && s < 2 * p ==> s / p == 1) by (nonlinear_arith);
            assert(s / p == 1);
            assert(s == p * (s / p) + s % p);
            assert(p * 1 == p) by (nonlinear_arith);
            assert(s % p == s - p);
            assert(idx as int == s - p);
        }
    }
    idx
}

/// The terminal column of the input cursor: one column past the input
/// area's left border, clamped to the column type's range.
pub fn input_cursor_column(area_x: u16, input_cursor: usize) -> (x: u16)
    ensures
        x as int == if area_x + 1 + input_cursor <= u16::MAX {
            area_x + 1 + input_cursor as int
        } else {
            u16::MAX as int
        },
{
    let base = area_x as usize + 1;
    if base <= 65535 && input_cursor <= 65535 - base {
        (base + input_cursor) as u16
    } else {
        u16::MAX
    }
}

} // verus!
