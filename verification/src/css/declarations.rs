//! The declarations of a rule block: custom properties (`--name: value`) become the
//! block's variables, in the order they are written; declarations of known properties
//! become its declarations; any other name is refused.

use vstd::prelude::*;

use crate::css::property_name::{property_table, PropertyName};
use crate::parser::table_lookup;
use vstd::string::{StrSliceExecFns, StringExecFns};

verus! {

/// A declaration of a rule block: its property and its value's text as written.
#[derive(Debug, Clone, PartialEq, Eq)]
pub struct Declaration {
    pub property: PropertyName,
    pub value: String,
}

/// Whether `char::is_whitespace` holds of `c`: the characters of Unicode's `White_Space`.
pub open spec fn is_white_space(c: char) -> bool {
    ||| ('\u{9}' <= c && c <= '\u{d}')
    ||| c == ' '
    ||| c == '\u{85}'
    ||| c == '\u{a0}'
    ||| c == '\u{1680}'
    ||| ('\u{2000}' <= c && c <= '\u{200a}')
    ||| c == '\u{2028}'
    ||| c == '\u{2029}'
    ||| c == '\u{202f}'
    ||| c == '\u{205f}'
    ||| c == '\u{3000}'
}

fn white_space(c: char) -> (r: bool)
    ensures
        r == is_white_space(c),
{
    ('\u{9}' <= c && c <= '\u{d}') || c == ' ' || c == '\u{85}' || c == '\u{a0}' || c == '\u{1680}' || ('\u{2000}' <= c
        && c <= '\u{200a}') || c == '\u{2028}' || c == '\u{2029}' || c == '\u{202f}' || c == '\u{205f}' || c == '\u{3000}'
}

/// The first position at or after `i` whose character is not whitespace, or the end.
pub open spec fn lead_end(s: Seq<char>, i: int) -> int
    decreases s.len() - i,
{
    if 0 <= i < s.len() && is_white_space(s[i]) {
        lead_end(s, i + 1)
    } else {
        i
    }
}

/// Going back from `j`, but not below `lo`, the position after the last character that
/// is not whitespace.
pub open spec fn trail_start(s: Seq<char>, lo: int, j: int) -> int
    decreases j - lo,
{
    if lo < j && j <= s.len() && is_white_space(s[j - 1]) {
        trail_start(s, lo, j - 1)
    } else {
        j
    }
}

/// `s` without its leading and trailing whitespace, as `str::trim` gives it.
pub open spec fn trim_ws(s: Seq<char>) -> Seq<char> {
    let a = lead_end(s, 0);
    s.subrange(a, trail_start(s, a, s.len() as int))
}

/// `s` without its leading and trailing whitespace.
pub fn trim_text(s: &str) -> (r: String)
    ensures
        r@ == trim_ws(s@),
{
    let n = s.unicode_len();
    let mut a: usize = 0;
    while a < n && white_space(s.get_char(a))
        invariant
            n == s@.len(),
            a <= n,
            lead_end(s@, 0) == lead_end(s@, a as int),
        decreases n - a,
    {
        a += 1;
    }
    let mut b: usize = n;
    while a < b && white_space(s.get_char(b - 1))
        invariant
            n == s@.len(),
            a <= b <= n,
            a == lead_end(s@, 0),
            trail_start(s@, a as int, n as int) == trail_start(s@, a as int, b as int),
        decreases b - a,
    {
        b -= 1;
    }
    let mut r = String::new();
    r.append(s.substring_char(a, b));
    proof {
        assert(r@ =~= trim_ws(s@));
    }
    r
}

/// Whether a declaration's name is that of a custom property: it begins with `--`.
pub open spec fn is_custom_name(name: Seq<char>) -> bool {
    name.len() >= 2 && name[0] == '-' && name[1] == '-'
}

/// The declarations of a rule block, as read so far.
pub struct RuleBody {
    /// The custom properties: name and value, in the order they were written.
    pub variables: Vec<(String, String)>,
    /// The declarations of known properties, in the order they were written.
    pub declarations: Vec<Declaration>,
}

impl RuleBody {
    /// A block with no declaration read yet.
    pub fn new() -> (r: RuleBody)
        ensures
            r.variables@.len() == 0,
            r.declarations@.len() == 0,
    {
        RuleBody { variables: Vec::new(), declarations: Vec::new() }
    }

    /// Adds the declaration `name: value`, its value trimmed of whitespace: a custom
    /// property to the variables, a known property to the declarations. Gives `false`,
    /// and adds nothing, for any other name.
    pub fn add(&mut self, name: &str, value: &str) -> (ok: bool)
        ensures
            is_custom_name(name@) ==> ok && final(self).declarations@ == old(self).declarations@
                && final(self).variables@.len() == old(self).variables@.len() + 1
                && final(self).variables@.subrange(0, old(self).variables@.len() as int) == old(self).variables@
                && final(self).variables@.last().0@ == name@ && final(self).variables@.last().1@ == trim_ws(value@),
            !is_custom_name(name@) ==> final(self).variables@ == old(self).variables@ && match table_lookup(
                name@,
                property_table(),
            ) {
                Some(p) => ok && final(self).declarations@.len() == old(self).declarations@.len() + 1
                    && final(self).declarations@.subrange(0, old(self).declarations@.len() as int) == old(self).declarations@
                    && final(self).declarations@.last().property == p
                    && final(self).declarations@.last().value@ == trim_ws(value@),
                Option::None => !ok && final(self).declarations@ == old(self).declarations@,
            },
    {
        let n = name.unicode_len();
        let custom = n >= 2 && name.get_char(0) == '-' && name.get_char(1) == '-';
        if custom {
            let mut key = String::new();
            key.append(name);
            proof {
                assert(key@ =~= name@);
            }
            let v = trim_text(value);
            let ghost before = self.variables@;
            self.variables.push((key, v));
            proof {
                assert(self.variables@.subrange(0, before.len() as int) =~= before);
            }
            true
        } else {
            match PropertyName::from_css_name(name) {
                Some(property) => {
                    let v = trim_text(value);
                    let ghost before = self.declarations@;
                    self.declarations.push(Declaration { property, value: v });
                    proof {
                        assert(self.declarations@.subrange(0, before.len() as int) =~= before);
                    }
                    true
                },
                Option::None => false,
            }
        }
    }
}

} // verus!
