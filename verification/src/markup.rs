//! Inline emphasis parsing: a doubled star opens bold, the next doubled star
//! closes it, and an unterminated opener is kept literally as plain text, so
//! no character is ever lost.

use crate::width::char_to_string;
use vstd::prelude::*;

verus! {

/// Style of one run of text.
#[derive(Clone, Copy, Debug, PartialEq, Eq, Structural)]
pub enum RunStyle {
    Plain,
    Bold,
}

/// A contiguous fragment of text carrying one style.
#[derive(Clone, Debug)]
pub struct StyledRun {
    pub text: String,
    pub style: RunStyle,
}

/// The model of a run: its text and whether it is bold.
pub open spec fn run_views(rs: Seq<StyledRun>) -> Seq<(Seq<char>, bool)> {
    rs.map_values(|r: StyledRun| (r.text@, r.style is Bold))
}

/// Whether a doubled star stands at position `i`.
pub open spec fn double_star_at(s: Seq<char>, i: int) -> bool {
    0 <= i && i + 1 < s.len() && s[i] == '*' && s[i + 1] == '*'
}

/// Index of the first doubled star, if any.
pub open spec fn find_double_star(s: Seq<char>) -> Option<int>
    decreases s.len(),
{
    if s.len() < 2 {
        None
    } else if s[0] == '*' && s[1] == '*' {
        Some(0)
    } else {
        match find_double_star(s.drop_first()) {
            Some(k) => Some(k + 1),
            None => None,
        }
    }
}

/// What `find_double_star` finds: the first doubled star, or none at all.
pub proof fn lemma_find_double_star_spec(s: Seq<char>)
    ensures
        match find_double_star(s) {
            Some(k) => 0 <= k && k + 2 <= s.len() && double_star_at(s, k) && forall|p: int|
                0 <= p < k ==> !double_star_at(s, p),
            None => forall|p: int| !(#[trigger] double_star_at(s, p)),
        },
    decreases s.len(),
{
    if s.len() < 2 {
    } else if s[0] == '*' && s[1] == '*' {
    } else {
        lemma_find_double_star_spec(s.drop_first());
        let d = s.drop_first();
        assert(forall|p: int|
            0 <= p < d.len() - 1 ==> #[trigger] d[p] == s[p + 1] && d[p + 1] == s[p + 2]);
        match find_double_star(d) {
            Some(k) => {
                assert(double_star_at(s, k + 1));
                assert forall|p: int| 0 <= p < k + 1 implies !double_star_at(s, p) by {
                    if p == 0 {
                    } else {
                        assert(!double_star_at(d, p - 1));
                    }
                }
            },
            None => {
                assert forall|p: int| !(#[trigger] double_star_at(s, p)) by {
                    if p == 0 {
                    } else if 0 <= p && p + 1 < s.len() {
                        assert(!double_star_at(d, p - 1));
                    }
                }
            },
        }
    }
}

/// The run holding a finished plain fragment, or nothing when it is empty.
pub open spec fn flush_plain(cur: Seq<char>) -> Seq<(Seq<char>, bool)> {
    if cur.len() == 0 {
        Seq::empty()
    } else {
        seq![(cur, false)]
    }
}

/// Runs of the text still to scan, `cur` holding plain characters already
/// read. A doubled star with a later closing doubled star yields a bold run
/// of what stands between them; one without a close is kept literally.
pub open spec fn parse_acc(s: Seq<char>, cur: Seq<char>) -> Seq<(Seq<char>, bool)>
    decreases s.len(),
    via parse_acc_decreases
{
    if s.len() == 0 {
        flush_plain(cur)
    } else if s.len() >= 2 && s[0] == '*' && s[1] == '*' {
        let rest = s.skip(2);
        match find_double_star(rest) {
            Some(k) => flush_plain(cur) + seq![(rest.take(k), true)] + parse_acc(
                rest.skip(k + 2),
                Seq::empty(),
            ),
            None => seq![(cur + s, false)],
        }
    } else {
        parse_acc(s.drop_first(), cur.push(s[0]))
    }
}

#[via_fn]
proof fn parse_acc_decreases(s: Seq<char>, cur: Seq<char>) {
    if s.len() >= 2 && s[0] == '*' && s[1] == '*' {
        lemma_find_double_star_spec(s.skip(2));
    }
}

/// The styled runs of a whole line.
pub open spec fn parse_markup(s: Seq<char>) -> Seq<(Seq<char>, bool)> {
    parse_acc(s, Seq::empty())
}

/// The text of a sequence of runs, concatenated with the styles dropped:
/// what the runs display.
pub open spec fn runs_content(rs: Seq<(Seq<char>, bool)>) -> Seq<char>
    decreases rs.len(),
{
    if rs.len() == 0 {
        Seq::empty()
    } else {
        rs[0].0 + runs_content(rs.drop_first())
    }
}

/// A sequence of runs written back out, bold runs between doubled stars.
pub open spec fn unparse_runs(rs: Seq<(Seq<char>, bool)>) -> Seq<char>
    decreases rs.len(),
{
    if rs.len() == 0 {
        Seq::empty()
    } else {
        (if rs[0].1 {
            seq!['*', '*'] + rs[0].0 + seq!['*', '*']
        } else {
            rs[0].0
        }) + unparse_runs(rs.drop_first())
    }
}

proof fn lemma_unparse_single(r: (Seq<char>, bool))
    ensures
        unparse_runs(seq![r]) == if r.1 {
            seq!['*', '*'] + r.0 + seq!['*', '*']
        } else {
            r.0
        },
{
    assert(seq![r].len() == 1);
    assert(seq![r][0] == r);
    assert(seq![r].drop_first() =~= Seq::<(Seq<char>, bool)>::empty());
    assert(unparse_runs(Seq::<(Seq<char>, bool)>::empty()) == Seq::<char>::empty());
    if r.1 {
        assert((seq!['*', '*'] + r.0 + seq!['*', '*']) + Seq::<char>::empty() =~= seq!['*', '*']
            + r.0 + seq!['*', '*']);
    } else {
        assert(r.0 + Seq::<char>::empty() =~= r.0);
    }
}

proof fn lemma_unparse_concat(a: Seq<(Seq<char>, bool)>, b: Seq<(Seq<char>, bool)>)
    ensures
        unparse_runs(a + b) == unparse_runs(a) + unparse_runs(b),
    decreases a.len(),
{
    if a.len() == 0 {
        assert(a + b =~= b);
        assert(unparse_runs(a) + unparse_runs(b) =~= unparse_runs(b));
    } else {
        lemma_unparse_concat(a.drop_first(), b);
        assert((a + b).drop_first() =~= a.drop_first() + b);
        assert((a + b)[0] == a[0]);
        assert((if a[0].1 {
            seq!['*', '*'] + a[0].0 + seq!['*', '*']
        } else {
            a[0].0
        }) + (unparse_runs(a.drop_first()) + unparse_runs(b)) =~= unparse_runs(a) + unparse_runs(
            b,
        ));
    }
}

#[verifier::rlimit(100)]
proof fn lemma_parse_acc_unparse(s: Seq<char>, cur: Seq<char>)
    ensures
        unparse_runs(parse_acc(s, cur)) == cur + s,
    decreases s.len(),
{
    if s.len() == 0 {
        if cur.len() == 0 {
            assert(cur + s =~= Seq::<char>::empty());
        } else {
            lemma_unparse_single((cur, false));
            assert(cur =~= cur + s);
        }
    } else if s.len() >= 2 && s[0] == '*' && s[1] == '*' {
        let rest = s.skip(2);
        lemma_find_double_star_spec(rest);
        match find_double_star(rest) {
            Some(k) => {
                lemma_parse_acc_unparse(rest.skip(k + 2), Seq::empty());
                let bold = seq![(rest.take(k), true)];
                lemma_unparse_concat(flush_plain(cur) + bold, parse_acc(rest.skip(k + 2), Seq::empty()));
                lemma_unparse_concat(flush_plain(cur), bold);
                assert(parse_acc(s, cur) == flush_plain(cur) + bold + parse_acc(
                    rest.skip(k + 2),
                    Seq::empty(),
                ));
                if cur.len() > 0 {
                    lemma_unparse_single((cur, false));
                }
                assert(unparse_runs(flush_plain(cur)) =~= cur);
                lemma_unparse_single((rest.take(k), true));
                assert(unparse_runs(bold) =~= seq!['*', '*'] + rest.take(k) + seq!['*', '*']);
                assert(unparse_runs(parse_acc(rest.skip(k + 2), Seq::empty())) =~= rest.skip(
                    k + 2,
                ));
                assert(cur + (seq!['*', '*'] + rest.take(k) + seq!['*', '*']) + (Seq::<
                    char,
                >::empty() + rest.skip(k + 2)) =~= cur + s);
            },
            None => {
                lemma_unparse_single((cur + s, false));
            },
        }
    } else {
        lemma_parse_acc_unparse(s.drop_first(), cur.push(s[0]));
        assert(cur.push(s[0]) + s.drop_first() =~= cur + s);
    }
}

/// Writing the parsed runs back out, bold ones between doubled stars,
/// reproduces the line exactly: parsing loses no character.
pub proof fn lemma_markup_roundtrip(s: Seq<char>)
    ensures
        unparse_runs(parse_markup(s)) == s,
{
    lemma_parse_acc_unparse(s, Seq::empty());
    assert(Seq::<char>::empty() + s =~= s);
}

proof fn lemma_parse_acc_no_marker(s: Seq<char>, cur: Seq<char>)
    requires
        forall|p: int| !(#[trigger] double_star_at(s, p)),
    ensures
        parse_acc(s, cur) == flush_plain(cur + s),
    decreases s.len(),
{
    if s.len() == 0 {
        assert(cur + s =~= cur);
    } else if s.len() >= 2 && s[0] == '*' && s[1] == '*' {
        assert(double_star_at(s, 0));
    } else {
        let d = s.drop_first();
        assert forall|p: int| !(#[trigger] double_star_at(d, p)) by {
            if 0 <= p && p + 1 < d.len() {
                assert(d[p] == s[p + 1] && d[p + 1] == s[p + 2]);
                assert(!double_star_at(s, p + 1));
            }
        }
        lemma_parse_acc_no_marker(d, cur.push(s[0]));
        assert(cur.push(s[0]) + d =~= cur + s);
    }
}

/// A line with no doubled star parses to a single plain run holding the
/// whole line.
pub proof fn lemma_markup_plain(s: Seq<char>)
    requires
        forall|p: int| !(#[trigger] double_star_at(s, p)),
        s.len() > 0,
    ensures
        parse_markup(s) == seq![(s, false)],
{
    lemma_parse_acc_no_marker(s, Seq::empty());
    assert(Seq::<char>::empty() + s =~= s);
}

proof fn lemma_parse_acc_unterminated(s: Seq<char>, cur: Seq<char>, i: int)
    requires
        double_star_at(s, i),
        forall|p: int| 0 <= p < i ==> !(#[trigger] double_star_at(s, p)),
        forall|q: int| q >= i + 2 ==> !(#[trigger] double_star_at(s, q)),
    ensures
        parse_acc(s, cur) == seq![(cur + s, false)],
    decreases s.len(),
{
    if i == 0 {
        let rest = s.skip(2);
        lemma_find_double_star_spec(rest);
        assert forall|p: int| !(#[trigger] double_star_at(rest, p)) by {
            if 0 <= p && p + 1 < rest.len() {
                assert(rest[p] == s[p + 2] && rest[p + 1] == s[p + 3]);
                assert(!double_star_at(s, p + 2));
            }
        }
        match find_double_star(rest) {
            Some(k) => {
                assert(double_star_at(rest, k));
                assert(false);
            },
            None => {},
        }
    } else {
        assert(!double_star_at(s, 0));
        let opener = s.len() >= 2 && s[0] == '*' && s[1] == '*';
        assert(!opener);
        let d = s.drop_first();
        assert(double_star_at(d, i - 1)) by {
            assert(d[i - 1] == s[i] && d[i] == s[i + 1]);
        }
        assert forall|p: int| 0 <= p < i - 1 implies !(#[trigger] double_star_at(d, p)) by {
            if 0 <= p && p + 1 < d.len() {
                assert(d[p] == s[p + 1] && d[p + 1] == s[p + 2]);
                assert(!double_star_at(s, p + 1));
            }
        }
        assert forall|q: int| q >= i + 1 implies !(#[trigger] double_star_at(d, q)) by {
            if 0 <= q && q + 1 < d.len() {
                assert(d[q] == s[q + 1] && d[q + 1] == s[q + 2]);
                assert(!double_star_at(s, q + 1));
            }
        }
        lemma_parse_acc_unterminated(d, cur.push(s[0]), i - 1);
        assert(cur.push(s[0]) + d =~= cur + s);
    }
}

/// A line whose only doubled star is never closed parses to a single plain
/// run equal to the whole line: the opener is kept, nothing is dropped.
pub proof fn lemma_markup_unterminated(s: Seq<char>, i: int)
    requires
        double_star_at(s, i),
        forall|p: int| 0 <= p < i ==> !(#[trigger] double_star_at(s, p)),
        forall|q: int| q >= i + 2 ==> !(#[trigger] double_star_at(s, q)),
    ensures
        parse_markup(s) == seq![(s, false)],
{
    lemma_parse_acc_unterminated(s, Seq::empty(), i);
    assert(Seq::<char>::empty() + s =~= s);
}

pub proof fn lemma_run_views_push(rs: Seq<StyledRun>, r: StyledRun)
    ensures
        run_views(rs.push(r)) == run_views(rs).push((r.text@, r.style is Bold)),
{
    assert(run_views(rs.push(r)) =~= run_views(rs).push((r.text@, r.style is Bold)));
}

/// Parse one line into styled runs: exactly the runs of `parse_markup`.
#[verifier::rlimit(100)]
pub fn parse_markdown_spans(text: &str) -> (spans: Vec<StyledRun>)
    ensures
        run_views(spans@) == parse_markup(text@),
{
    let n = text.unicode_len();
    let mut out: Vec<StyledRun> = Vec::new();
    let mut cur = String::new();
    let mut cur_empty: bool = true;
    let mut i: usize = 0;
    proof {
        assert(text@.skip(0) =~= text@);
        assert(run_views(out@) =~= Seq::<(Seq<char>, bool)>::empty());
    }
    while i < n
        invariant
            i <= n,
            n == text@.len(),
            cur_empty <==> cur@.len() == 0,
            parse_markup(text@) == run_views(out@) + parse_acc(text@.skip(i as int), cur@),
        decreases n - i,
    {
        let ghost s0 = text@.skip(i as int);
        let c = text.get_char(i);
        proof {
            assert(s0[0] == text@[i as int]);
        }
        let opener = c == '*' && i + 1 < n && text.get_char(i + 1) == '*';
        if opener {
            proof {
                assert(s0[1] == text@[i as int + 1]);
                assert(s0.skip(2) =~= text@.skip(i as int + 2));
            }
            let ghost rest = text@.skip(i as int + 2);
            // Look for the closing doubled star.
            let mut j: usize = i + 2;
            let mut found: bool = false;
            while j < n - 1 && !found
                invariant
                    i + 2 <= j,
                    j <= n,
                    n == text@.len(),
                    found ==> j + 1 < n && double_star_at(text@, j as int),
                    forall|p: int| i + 2 <= p < j ==> !(#[trigger] double_star_at(text@, p)),
                decreases n - j, (if found { 0int } else { 1int }),
            {
                if text.get_char(j) == '*' && text.get_char(j + 1) == '*' {
                    found = true;
                } else {
                    j = j + 1;
                }
            }
            proof {
                lemma_find_double_star_spec(rest);
                assert(forall|p: int|
                    0 <= p && p + 1 < rest.len() ==> #[trigger] rest[p] == text@[p + i + 2]
                        && rest[p + 1] == text@[p + i + 3]);
            }
            let ghost pre_out = out@;
            let ghost pre_cur = cur@;
            if found {
                proof {
                    let k = j - i - 2;
                    assert(double_star_at(rest, k));
                    assert forall|p: int| 0 <= p < k implies !(#[trigger] double_star_at(
                        rest,
                        p,
                    )) by {
                        assert(!double_star_at(text@, p + i + 2));
                    }
                    match find_double_star(rest) {
                        Some(k2) => {
                            if k2 < k {
                                assert(double_star_at(rest, k2));
                                assert(false);
                            } else if k2 > k {
                                assert(!double_star_at(rest, k));
                                assert(false);
                            }
                        },
                        None => {
                            assert(!double_star_at(rest, k));
                            assert(false);
                        },
                    }
                }
                let bold = String::from_str(text.substring_char(i + 2, j));
                if !cur_empty {
                    let ghost old_out = out@;
                    let ghost old_cur = cur@;
                    out.push(StyledRun { text: cur, style: RunStyle::Plain });
                    cur = String::new();
                    cur_empty = true;
                    proof {
                        lemma_run_views_push(old_out, out@[out@.len() - 1]);
                    }
                }
                let ghost mid_out = out@;
                out.push(StyledRun { text: bold, style: RunStyle::Bold });
                proof {
                    lemma_run_views_push(mid_out, out@[out@.len() - 1]);
                    let k = j - i - 2;
                    assert(rest.take(k) =~= text@.subrange(i as int + 2, j as int));
                    assert(rest.skip(k + 2) =~= text@.skip(j as int + 2));
                    assert(s0.skip(2) =~= rest);
                    assert(parse_acc(s0, pre_cur) == flush_plain(pre_cur) + seq![
                        (rest.take(k), true),
                    ] + parse_acc(rest.skip(k + 2), Seq::empty()));
                    assert(run_views(out@) =~= run_views(pre_out) + flush_plain(pre_cur) + seq![
                        (rest.take(k), true),
                    ]);
                    assert(run_views(pre_out) + parse_acc(s0, pre_cur) =~= run_views(out@)
                        + parse_acc(text@.skip(j as int + 2), Seq::empty()));
                    assert(cur@ =~= Seq::<char>::empty());
                }
                i = j + 2;
            } else {
                // No closing marker: keep the opener and the tail literally.
                proof {
                    assert forall|p: int| !(#[trigger] double_star_at(rest, p)) by {
                        if 0 <= p && p + 1 < rest.len() {
                            if p + i + 2 < j {
                                assert(!double_star_at(text@, p + i + 2));
                            } else {
                                assert(p + 1 + i + 2 >= n);
                            }
                        }
                    }
                    match find_double_star(rest) {
                        Some(k2) => {
                            assert(double_star_at(rest, k2));
                            assert(false);
                        },
                        None => {},
                    }
                }
                cur.append(text.substring_char(i, n));
                cur_empty = false;
                proof {
                    assert(s0.skip(2) =~= rest);
                    assert(parse_acc(s0, pre_cur) == seq![(pre_cur + s0, false)]);
                    assert(text@.subrange(i as int, n as int) =~= s0);
                    assert(cur@ =~= pre_cur + s0);
                    assert(text@.skip(n as int) =~= Seq::<char>::empty());
                    assert(parse_acc(text@.skip(n as int), cur@) =~= seq![(pre_cur + s0, false)]);
                }
                i = n;
            }
        } else {
            let ghost old_cur = cur@;
            let cs = char_to_string(c);
            cur.append(cs.as_str());
            cur_empty = false;
            proof {
                assert(cur@ =~= old_cur.push(text@[i as int]));
                assert(s0.drop_first() =~= text@.skip(i as int + 1));
                if s0.len() >= 2 && s0[0] == '*' && s0[1] == '*' {
                    assert(text@[i as int + 1] == s0[1]);
                    assert(false);
                }
            }
            i = i + 1;
        }
    }
    proof {
        assert(text@.skip(n as int) =~= Seq::<char>::empty());
    }
    if !cur_empty {
        let ghost old_out = out@;
        out.push(StyledRun { text: cur, style: RunStyle::Plain });
        proof {
            lemma_run_views_push(old_out, out@[out@.len() - 1]);
            assert(run_views(old_out).push((out@[out@.len() - 1].text@, false)) =~= run_views(
                old_out,
            ) + flush_plain(out@[out@.len() - 1].text@));
        }
    } else {
        proof {
            assert(run_views(out@) + flush_plain(cur@) =~= run_views(out@));
        }
    }
    out
}

} // verus!
