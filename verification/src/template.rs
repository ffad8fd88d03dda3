//! Placeholder substitution for page shells.
//!
//! A placeholder is `{{`, then any characters other than `}`, then `}}`.
//! Placeholders are found from left to right and do not overlap. The name of
//! a placeholder is what stands between the braces, trimmed and in lower
//! case. A placeholder whose name has a value is replaced by the value; any
//! other stays as it is. Values are not searched for placeholders.

pub use vstd::hash_map::StringHashMap;
use vstd::prelude::*;
use vstd::string::*;
use crate::text::{chars_of, find_char, first_index, lemma_first_index_bounds, push_char};

verus! {

/// What `str::trim` returns.
pub uninterp spec fn trimmed(s: Seq<char>) -> Seq<char>;

/// What `str::to_lowercase` returns.
pub uninterp spec fn lowercased(s: Seq<char>) -> Seq<char>;

/// Calls `str::trim`. Trusted: the result is a function of the text alone.
#[verifier::external_body]
fn trim(s: &str) -> (r: &str)
    ensures
        r@ == trimmed(s@),
{
    s.trim()
}

/// Calls `str::to_lowercase`. Trusted: the result is a function of the text
/// alone.
#[verifier::external_body]
fn to_lowercase(s: &str) -> (r: String)
    ensures
        r@ == lowercased(s@),
{
    s.to_lowercase()
}

/// The values of a substitution, by name, as sequences of characters.
pub open spec fn values(variables: Map<Seq<char>, &str>) -> Map<Seq<char>, Seq<char>> {
    variables.map_values(|value: &str| value@)
}

/// If `s` begins with a placeholder, the length of that placeholder.
pub open spec fn placeholder_len(s: Seq<char>) -> Option<int> {
    if s.len() >= 2 && s[0] == '{' && s[1] == '{' {
        let close = 2 + first_index(s.skip(2), '}');
        if 2 <= close && close + 1 < s.len() && s[close + 1] == '}' {
            Some(close + 2)
        } else {
            None
        }
    } else {
        None
    }
}

/// The name of the placeholder of length `len` that `s` begins with.
pub open spec fn placeholder_name(s: Seq<char>, len: int) -> Seq<char> {
    lowercased(trimmed(s.subrange(2, len - 2)))
}

/// The text with every placeholder that has a value replaced by it.
pub open spec fn substituted(s: Seq<char>, variables: Map<Seq<char>, Seq<char>>) -> Seq<char>
    decreases s.len(),
{
    if s.len() == 0 {
        Seq::empty()
    } else {
        match placeholder_len(s) {
            Some(len) => {
                let name = placeholder_name(s, len);
                let piece = if variables.contains_key(name) {
                    variables[name]
                } else {
                    s.take(len)
                };
                piece + substituted(s.skip(len), variables)
            },
            None => seq![s[0]] + substituted(s.skip(1), variables),
        }
    }
}

/// Replaces every placeholder of `template` whose name has a value among
/// `variables` by that value.
pub fn render_template(template: &str, variables: &StringHashMap<&str>) -> (r: String)
    ensures
        r@ == substituted(template@, values(variables@)),
{
    let chars = chars_of(template);
    let n = chars.len();
    let ghost vars = values(variables@);
    let mut out = String::new();
    let mut pos: usize = 0;
    assert(chars@.skip(0) =~= chars@);
    while pos < n
        invariant
            n == chars@.len(),
            pos <= n,
            chars@ == template@,
            vars == values(variables@),
            out@ + substituted(chars@.skip(pos as int), vars) == substituted(chars@, vars),
        decreases n - pos,
    {
        let ghost tail = chars@.skip(pos as int);
        let ghost before = out@;
        let mut len: usize = 0;
        if n - pos >= 2 && chars[pos] == '{' && chars[pos + 1] == '{' {
            let close = find_char(chars.as_slice(), pos + 2, '}');
            assert(tail.skip(2) =~= chars@.skip(pos + 2));
            if close < n - 1 && chars[close + 1] == '}' {
                len = close + 2 - pos;
            }
            proof {
                lemma_first_index_bounds(tail.skip(2), '}');
            }
        }
        assert(placeholder_len(tail) == if len > 0 {
            Some(len as int)
        } else {
            None
        });
        if len > 0 {
            let raw = crate::text::string_of(chars.as_slice(), pos + 2, pos + len - 2);
            assert(raw@ =~= tail.subrange(2, len - 2));
            let name = to_lowercase(trim(raw.as_str()));
            match variables.get(name.as_str()) {
                Some(value) => {
                    out.append(*value);
                },
                None => {
                    let verbatim = crate::text::string_of(chars.as_slice(), pos, pos + len);
                    assert(verbatim@ =~= tail.take(len as int));
                    out.append(verbatim.as_str());
                },
            }
            proof {
                let piece = if vars.contains_key(placeholder_name(tail, len as int)) {
                    vars[placeholder_name(tail, len as int)]
                } else {
                    tail.take(len as int)
                };
                assert(out@ == before + piece);
                assert(tail.skip(len as int) =~= chars@.skip(pos + len));
                assert((before + piece) + substituted(chars@.skip(pos + len), vars) =~= before + (
                piece + substituted(chars@.skip(pos + len), vars)));
            }
            pos = pos + len;
        } else {
            push_char(&mut out, chars[pos]);
            proof {
                assert(tail.skip(1) =~= chars@.skip(pos + 1));
                assert(before.push(chars@[pos as int]) + substituted(chars@.skip(pos + 1), vars)
                    =~= before + (seq![tail[0]] + substituted(chars@.skip(pos + 1), vars)));
            }
            pos = pos + 1;
        }
    }
    assert(out@ + Seq::<char>::empty() =~= out@);
    out
}

/// Placeholders without a value stay as they are: where no name has a
/// value, substitution changes nothing.
pub proof fn law_unknown_placeholders_stay(s: Seq<char>, variables: Map<Seq<char>, Seq<char>>)
    requires
        forall|name: Seq<char>| !variables.contains_key(name),
    ensures
        substituted(s, variables) == s,
    decreases s.len(),
{
    if s.len() > 0 {
        match placeholder_len(s) {
            Some(len) => {
                lemma_first_index_bounds(s.skip(2), '}');
                law_unknown_placeholders_stay(s.skip(len), variables);
                assert(!variables.contains_key(placeholder_name(s, len)));
                assert(s.take(len) + s.skip(len) =~= s);
            },
            None => {
                law_unknown_placeholders_stay(s.skip(1), variables);
                assert(seq![s[0]] + s.skip(1) =~= s);
            },
        }
    }
}

/// Text without an opening brace holds no placeholder: substitution
/// changes nothing in it, whatever the values.
pub proof fn law_text_without_braces_stays(s: Seq<char>, variables: Map<Seq<char>, Seq<char>>)
    requires
        forall|i: int| 0 <= i < s.len() ==> s[i] != '{',
    ensures
        substituted(s, variables) == s,
    decreases s.len(),
{
    if s.len() > 0 {
        assert(s[0] != '{');
        assert forall|i: int| 0 <= i < s.skip(1).len() implies s.skip(1)[i] != '{' by {
            assert(s.skip(1)[i] == s[i + 1]);
        }
        law_text_without_braces_stays(s.skip(1), variables);
        assert(seq![s[0]] + s.skip(1) =~= s);
    }
}
} // verus!
