pub mod clock;
pub mod events;
pub mod markup;
pub mod render;
pub mod state;
pub mod transport;
pub mod width;
pub mod wrap;

use crate::width::{is_space, is_space_char};
use vstd::prelude::*;

verus! {

/// Stored configuration: the API key used by the transport layer.
pub struct Config {
    pub api_key: String,
}

impl Config {
    /// Replace the stored API key with the given one.
    pub fn set_api_key(&mut self, api_key: String)
        ensures
            final(self).api_key@ == api_key@,
    {
        self.api_key = api_key;
    }
}

/// The string with its leading whitespace removed.
pub open spec fn drop_leading_spaces(s: Seq<char>) -> Seq<char>
    decreases s.len(),
{
    if s.len() > 0 && is_space_char(s[0]) {
        drop_leading_spaces(s.drop_first())
    } else {
        s
    }
}

/// The string with its trailing whitespace removed.
pub open spec fn drop_trailing_spaces(s: Seq<char>) -> Seq<char>
    decreases s.len(),
{
    if s.len() > 0 && is_space_char(s.last()) {
        drop_trailing_spaces(s.drop_last())
    } else {
        s
    }
}

/// The string with surrounding whitespace removed.
pub open spec fn trimmed(s: Seq<char>) -> Seq<char> {
    drop_trailing_spaces(drop_leading_spaces(s))
}

proof fn lemma_drop_trailing_keeps_head(s: Seq<char>)
    requires
        s.len() > 0,
        !is_space_char(s[0]),
    ensures
        drop_trailing_spaces(s).len() > 0,
    decreases s.len(),
{
    if is_space_char(s.last()) {
        assert(s.len() >= 2);
        assert(s.drop_last()[0] == s[0]);
        lemma_drop_trailing_keeps_head(s.drop_last());
    }
}

/// The API key out of one typed line: the line with surrounding whitespace
/// removed, or nothing when only whitespace (or nothing) was typed.
pub fn parse_api_key_input(input: &str) -> (r: Option<String>)
    ensures
        r matches Some(k) ==> k@ == trimmed(input@) && trimmed(input@).len() > 0,
        r is None ==> trimmed(input@).len() == 0,
{
    let n = input.unicode_len();
    let mut a: usize = 0;
    let mut all_space: bool = true;
    proof {
        assert(input@.skip(0) =~= input@);
    }
    while all_space && a < n
        invariant
            a <= n,
            n == input@.len(),
            drop_leading_spaces(input@) == drop_leading_spaces(input@.skip(a as int)),
            !all_space ==> a < n && !is_space_char(input@[a as int]),
        decreases n - a, (if all_space { 1int } else { 0int }),
    {
        let c = input.get_char(a);
        proof {
            assert(input@.skip(a as int)[0] == input@[a as int]);
            assert(input@.skip(a as int).drop_first() =~= input@.skip(a as int + 1));
        }
        if is_space(c) {
            a = a + 1;
        } else {
            all_space = false;
        }
    }
    if all_space {
        proof {
            assert(input@.skip(n as int) =~= Seq::<char>::empty());
            assert(drop_leading_spaces(input@) =~= Seq::<char>::empty());
            assert(trimmed(input@) =~= Seq::<char>::empty());
        }
        return None;
    }
    let ghost t = input@.skip(a as int);
    proof {
        assert(t[0] == input@[a as int]);
        assert(drop_leading_spaces(t) == t);
        lemma_drop_trailing_keeps_head(t);
    }
    let mut b: usize = n;
    let mut trailing: bool = true;
    proof {
        assert(t.take(n - a as int) =~= t);
    }
    while trailing && b > a
        invariant
            a <= b <= n,
            n == input@.len(),
            t == input@.skip(a as int),
            a < n,
            !is_space_char(input@[a as int]),
            drop_trailing_spaces(t) == drop_trailing_spaces(t.take(b - a as int)),
            !trailing ==> b > a && !is_space_char(input@[b as int - 1]),
        decreases b - a, (if trailing { 1int } else { 0int }),
    {
        let c = input.get_char(b - 1);
        proof {
            let m = b - a as int;
            assert(t.take(m).len() == m);
            assert(t.take(m)[m - 1] == input@[b as int - 1]);
            assert(t.take(m).drop_last() =~= t.take(m - 1));
        }
        if is_space(c) {
            b = b - 1;
        } else {
            trailing = false;
        }
    }
    proof {
        if trailing {
            assert(b == a);
            assert(t.take(0) =~= Seq::<char>::empty());
            assert(drop_trailing_spaces(t).len() == 0);
            assert(false);
        }
        let m = b - a as int;
        assert(t.take(m)[m - 1] == input@[b as int - 1]);
        assert(t.take(m).last() == input@[b as int - 1]);
        assert(drop_trailing_spaces(t.take(m)) == t.take(m));
        assert(t.take(m) =~= input@.subrange(a as int, b as int));
        assert(trimmed(input@) == input@.subrange(a as int, b as int));
    }
    let k = String::from_str(input.substring_char(a, b));
    Some(k)
}

} // verus!
