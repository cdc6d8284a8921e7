//! Choice of the interface language from the process locale.
use vstd::prelude::*;

use crate::text::chars_of;

verus! {

/// A character that ends the language part of a locale name (`ja_JP.UTF-8`, `en-US`).
pub open spec fn is_locale_sep(c: char) -> bool {
    c == '_' || c == '-' || c == '.'
}

/// The index of the first separator at or after `i`, or the length when there is none.
pub open spec fn sep_from(s: Seq<char>, i: int) -> int
    decreases s.len() - i,
{
    if i < 0 || i >= s.len() {
        s.len() as int
    } else if is_locale_sep(s[i]) {
        i
    } else {
        sep_from(s, i + 1)
    }
}

/// The language part of a locale name: what comes before its first `_`, `-` or `.`.
pub open spec fn language_code(s: Seq<char>) -> Seq<char> {
    s.take(sep_from(s, 0))
}

/// The supported interface language for a locale name: Japanese for the language code `ja`,
/// English otherwise.
pub open spec fn ui_language_spec(locale: Seq<char>) -> Seq<char> {
    if language_code(locale) == seq!['j', 'a'] {
        seq!['j', 'a']
    } else {
        seq!['e', 'n']
    }
}

fn sep_at(cs: &Vec<char>, i: usize) -> (r: bool)
    requires
        i < cs@.len(),
    ensures
        r == is_locale_sep(cs@[i as int]),
{
    let c = cs[i];
    c == '_' || c == '-' || c == '.'
}

/// The interface language code (`"ja"` or `"en"`) for a locale name such as `ja_JP.UTF-8`;
/// an empty or unknown locale gives English.
pub fn ui_language(locale: &str) -> (r: &'static str)
    ensures
        r@ == ui_language_spec(locale@),
{
    let cs = chars_of(locale);
    let ghost s = locale@;
    let mut i: usize = 0;
    while i < cs.len() && !sep_at(&cs, i)
        invariant
            cs@ == s,
            i <= s.len(),
            sep_from(s, i as int) == sep_from(s, 0),
        decreases s.len() - i,
    {
        i += 1;
    }
    assert(sep_from(s, 0) == i as int);
    let is_ja = i == 2 && cs[0] == 'j' && cs[1] == 'a';
    proof {
        reveal_strlit("ja");
        reveal_strlit("en");
        if is_ja {
            assert(language_code(s) =~= seq!['j', 'a']);
        } else if language_code(s) == seq!['j', 'a'] {
            assert(language_code(s).len() == 2);
            assert(language_code(s)[0] == s[0] && language_code(s)[1] == s[1]);
        }
    }
    if is_ja {
        "ja"
    } else {
        "en"
    }
}

} // verus!
