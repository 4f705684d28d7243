//! Display-width measurement: the column count a string occupies on the
//! terminal. Widths come from the `unicode_width` crate; everything built on
//! top of the per-character lookup is verified.

use vstd::prelude::*;

verus! {

/// Columns that `unicode_width` assigns to one character.
pub uninterp spec fn char_width_of(c: char) -> nat;

/// Whether a character has the Unicode `White_Space` property.
pub uninterp spec fn is_space_char(c: char) -> bool;

/// Display width of one character. `unicode_width` assigns every character
/// at most three columns (its tables encode widths 0 to 3), and the trusted
/// wrapper below states that bound; taking the minimum here makes it
/// available to every proof.
pub open spec fn char_display_width(c: char) -> nat {
    if char_width_of(c) <= 3 {
        char_width_of(c)
    } else {
        3
    }
}

/// Display width of a string: the sum of its characters' widths.
pub open spec fn str_width(s: Seq<char>) -> nat
    decreases s.len(),
{
    if s.len() == 0 {
        0
    } else {
        char_display_width(s[0]) + str_width(s.drop_first())
    }
}

/// Relies on `unicode_width::UnicodeWidthChar::width`: control characters
/// have no width (taken as zero columns here), printable ASCII is one column
/// wide, and the lookup tables assign no character more than three columns.
/// The six box-drawing glyphs used for bubble borders are in the Ambiguous
/// category of UAX #11, which this function renders one column wide (its
/// documentation states the non-CJK treatment of Ambiguous characters).
#[verifier::external_body]
pub(crate) fn char_width(c: char) -> (w: usize)
    ensures
        w == char_width_of(c),
        w <= 3,
        (' ' as u32) <= (c as u32) && (c as u32) <= ('~' as u32) ==> w == 1,
        c == '╭' || c == '─' || c == '╮' || c == '│' || c == '╰' || c == '╯' ==> w == 1,
{
    unicode_width::UnicodeWidthChar::width(c).unwrap_or(0)
}

/// Relies on `char::is_whitespace`: it tests the Unicode `White_Space`
/// property, which holds of the space character and of no printable ASCII
/// character besides it.
#[verifier::external_body]
pub(crate) fn is_space(c: char) -> (b: bool)
    ensures
        b == is_space_char(c),
        c == ' ' ==> b,
        ('!' as u32) <= (c as u32) && (c as u32) <= ('~' as u32) ==> !b,
{
    c.is_whitespace()
}

/// Relies on `char::to_string`: the returned string holds exactly the one
/// character.
#[verifier::external_body]
pub(crate) fn char_to_string(c: char) -> (s: String)
    ensures
        s@ == seq![c],
{
    c.to_string()
}

/// A string's display width is at most three columns per character.
pub proof fn lemma_str_width_bound(s: Seq<char>)
    ensures
        str_width(s) <= 3 * s.len(),
    decreases s.len(),
{
    if s.len() > 0 {
        lemma_str_width_bound(s.drop_first());
    }
}

/// Width adds over concatenation.
pub proof fn lemma_str_width_concat(a: Seq<char>, b: Seq<char>)
    ensures
        str_width(a + b) == str_width(a) + str_width(b),
    decreases a.len(),
{
    if a.len() == 0 {
        assert(a + b =~= b);
    } else {
        assert((a + b).drop_first() =~= a.drop_first() + b);
        lemma_str_width_concat(a.drop_first(), b);
    }
}

/// Width of a string extended by one character.
pub proof fn lemma_str_width_push(s: Seq<char>, c: char)
    ensures
        str_width(s.push(c)) == str_width(s) + char_display_width(c),
{
    assert(s.push(c) =~= s + seq![c]);
    lemma_str_width_concat(s, seq![c]);
    assert(str_width(seq![c]) == char_display_width(c) + str_width(seq![c].drop_first()));
    assert(seq![c].drop_first() =~= Seq::<char>::empty());
}

/// Width of a one-longer prefix: the prefix so far plus the next character.
pub proof fn lemma_str_width_take_step(s: Seq<char>, i: int)
    requires
        0 <= i < s.len(),
    ensures
        str_width(s.take(i + 1)) == str_width(s.take(i)) + char_display_width(s[i]),
{
    assert(s.take(i + 1) =~= s.take(i).push(s[i]));
    lemma_str_width_push(s.take(i), s[i]);
}

/// A prefix is never wider than the whole string.
pub proof fn lemma_str_width_take_le(s: Seq<char>, i: int)
    requires
        0 <= i <= s.len(),
    ensures
        str_width(s.take(i)) <= str_width(s),
{
    assert(s =~= s.take(i) + s.skip(i));
    lemma_str_width_concat(s.take(i), s.skip(i));
}

/// Display width of the whole string, measured character by character;
/// `None` only when the total cannot be held in a `usize`.
pub fn text_width(s: &str) -> (r: Option<usize>)
    ensures
        r matches Some(w) ==> w == str_width(s@),
        r is None ==> str_width(s@) > usize::MAX,
{
    let n = s.unicode_len();
    let mut i: usize = 0;
    let mut w: usize = 0;
    while i < n
        invariant
            i <= n,
            n == s@.len(),
            w == str_width(s@.take(i as int)),
        decreases n - i,
    {
        let c = s.get_char(i);
        let cw = char_width(c);
        proof {
            lemma_str_width_take_step(s@, i as int);
        }
        if w > usize::MAX - cw {
            proof {
                lemma_str_width_take_le(s@, i + 1);
            }
            return None;
        }
        w = w + cw;
        i = i + 1;
    }
    proof {
        assert(s@.take(n as int) =~= s@);
    }
    Some(w)
}

} // verus!
