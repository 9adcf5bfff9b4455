//! Flag-name conventions for schema-derived command flags: conversions
//! between camel case and kebab case, and the flag type taxonomy.

use vstd::prelude::*;
use vstd::string::*;
use crate::json::Json;
use crate::text::push_char;

verus! {

/// The type of a flag, as a JSON-Schema-like property names it.
pub enum FlagType {
    String,
    Integer,
    Number,
    Boolean,
    Array,
    Object,
    Enum(Vec<String>),
}

/// One command flag derived from a schema property.
pub struct SchemaFlag {
    pub name: String,
    pub description: String,
    pub required: bool,
    pub flag_type: FlagType,
    pub default: Option<Json>,
}

/// Whether `c` is an ASCII upper-case letter.
pub open spec fn is_upper(c: char) -> bool {
    'A' <= c && c <= 'Z'
}

/// The kebab form of one camel-case character at position `i`: an
/// upper-case letter becomes a hyphen (except at the start) and its
/// lower-case form.
pub open spec fn camel_kebab_from(s: Seq<char>, i: int) -> Seq<char>
    decreases s.len() - i,
{
    if !(0 <= i < s.len()) {
        Seq::empty()
    } else {
        let this: Seq<char> = if is_upper(s[i]) {
            if i > 0 {
                seq!['-', crate::oauth::ascii_lower(s[i])]
            } else {
                seq![crate::oauth::ascii_lower(s[i])]
            }
        } else {
            seq![s[i]]
        };
        this + camel_kebab_from(s, i + 1)
    }
}

/// Converts `camelCase` to `kebab-case`.
pub fn camel_to_kebab(s: &str) -> (r: String)
    ensures
        r@ == camel_kebab_from(s@, 0),
{
    let cs = crate::text::chars_of(s);
    let out = camel_kebab_exec(&cs, 0);
    crate::text::string_of(&out)
}

fn camel_kebab_exec(s: &Vec<char>, i: usize) -> (r: Vec<char>)
    requires
        i <= s@.len(),
    ensures
        r@ == camel_kebab_from(s@, i as int),
    decreases s@.len() - i,
{
    if i >= s.len() {
        Vec::new()
    } else {
        let c = s[i];
        let rest = camel_kebab_exec(s, i + 1);
        let ghost pre = rest@;
        let mut out = rest;
        if 'A' <= c && c <= 'Z' {
            let lc = crate::oauth::lower_char(c);
            out.insert(0, lc);
            if i > 0 {
                out.insert(0, '-');
                proof {
                    assert(out@ =~= seq!['-', crate::oauth::ascii_lower(s@[i as int])] + pre);
                }
            } else {
                proof {
                    assert(out@ =~= seq![crate::oauth::ascii_lower(s@[i as int])] + pre);
                }
            }
        } else {
            out.insert(0, c);
            proof {
                assert(out@ =~= seq![s@[i as int]] + pre);
            }
        }
        out
    }
}

/// The camel form of a kebab-case tail at `i`: a hyphen is dropped and
/// capitalizes the next character.
pub open spec fn kebab_camel_from(s: Seq<char>, i: int, capitalize: bool) -> Seq<char>
    decreases s.len() - i,
{
    if !(0 <= i < s.len()) {
        Seq::empty()
    } else if s[i] == '-' {
        kebab_camel_from(s, i + 1, true)
    } else if capitalize {
        seq![ascii_upper(s[i])] + kebab_camel_from(s, i + 1, false)
    } else {
        seq![s[i]] + kebab_camel_from(s, i + 1, false)
    }
}

/// The ASCII upper-case form of a character.
pub open spec fn ascii_upper(c: char) -> char {
    if 'a' <= c && c <= 'z' {
        ((c as u8) - 32) as char
    } else {
        c
    }
}

/// Converts `kebab-case` to `camelCase`.
pub fn kebab_to_camel(s: &str) -> (r: String)
    ensures
        r@ == kebab_camel_from(s@, 0, false),
{
    let cs = crate::text::chars_of(s);
    let out = kebab_camel_exec(&cs, 0, false);
    crate::text::string_of(&out)
}

fn kebab_camel_exec(s: &Vec<char>, i: usize, capitalize: bool) -> (r: Vec<char>)
    requires
        i <= s@.len(),
    ensures
        r@ == kebab_camel_from(s@, i as int, capitalize),
    decreases s@.len() - i,
{
    if i >= s.len() {
        Vec::new()
    } else {
        let c = s[i];
        if c == '-' {
            kebab_camel_exec(s, i + 1, true)
        } else if capitalize {
            let uc = if 'a' <= c && c <= 'z' {
                (((c as u32) - 32) as u8) as char
            } else {
                c
            };
            proof {
                assert(uc == ascii_upper(s@[i as int]));
            }
            let rest = kebab_camel_exec(s, i + 1, false);
            let ghost pre = rest@;
            let mut out = rest;
            out.insert(0, uc);
            proof {
                assert(out@ =~= seq![ascii_upper(s@[i as int])] + pre);
            }
            out
        } else {
            let rest = kebab_camel_exec(s, i + 1, false);
            let ghost pre = rest@;
            let mut out = rest;
            out.insert(0, c);
            proof {
                assert(out@ =~= seq![s@[i as int]] + pre);
            }
            out
        }
    }
}

} // verus!
