//! Case conversions of text: Unicode case folding, and the `snake` and
//! `camel` modifiers.

use vstd::prelude::*;

verus! {

pub open spec fn ascii_lower(c: char) -> char {
    if 'A' <= c <= 'Z' {
        ((c as u32) + 32) as char
    } else {
        c
    }
}

pub open spec fn ascii_upper(c: char) -> char {
    if 'a' <= c <= 'z' {
        ((c as u32) - 32) as char
    } else {
        c
    }
}

pub open spec fn all_ascii(s: Seq<char>) -> bool {
    forall|i: int| 0 <= i < s.len() ==> (s[i] as u32) < 128
}

/// The full Unicode lowercase of a string.
pub uninterp spec fn lower_of(s: Seq<char>) -> Seq<char>;

/// The full Unicode uppercase of a string.
pub uninterp spec fn upper_of(s: Seq<char>) -> Seq<char>;

/// Whether a character has the Unicode `Uppercase` property.
pub uninterp spec fn is_upper(c: char) -> bool;

/// The characters that the uppercase mapping of one character yields.
pub uninterp spec fn char_upper_of(c: char) -> Seq<char>;

/// The characters that the lowercase mapping of one character yields.
pub uninterp spec fn char_lower_of(c: char) -> Seq<char>;

/// The default escape of one character, as used inside string literals.
pub uninterp spec fn escape_of(c: char) -> Seq<char>;

/// Relies on `str::to_lowercase`: the result depends on the characters alone,
/// and on ASCII it maps `A`..`Z` to `a`..`z` and keeps the rest.
#[verifier::external_body]
pub(crate) fn to_lower(s: &Vec<char>) -> (r: Vec<char>)
    ensures
        r@ == lower_of(s@),
        all_ascii(s@) ==> r@ == s@.map_values(|c: char| ascii_lower(c)),
{
    let s: String = s.iter().collect();
    s.to_lowercase().chars().collect()
}

/// Relies on `str::to_uppercase`: the result depends on the characters alone,
/// and on ASCII it maps `a`..`z` to `A`..`Z` and keeps the rest.
#[verifier::external_body]
pub(crate) fn to_upper(s: &Vec<char>) -> (r: Vec<char>)
    ensures
        r@ == upper_of(s@),
        all_ascii(s@) ==> r@ == s@.map_values(|c: char| ascii_upper(c)),
{
    let s: String = s.iter().collect();
    s.to_uppercase().chars().collect()
}

/// Relies on `char::is_uppercase`; on ASCII it holds exactly of `A`..`Z`.
#[verifier::external_body]
fn char_is_upper(c: char) -> (r: bool)
    ensures
        r == is_upper(c),
        (c as u32) < 128 ==> (r <==> 'A' <= c <= 'Z'),
{
    c.is_uppercase()
}

/// Relies on `char::to_uppercase`, collected into characters.
#[verifier::external_body]
fn char_to_upper(c: char) -> (r: Vec<char>)
    ensures
        r@ == char_upper_of(c),
        (c as u32) < 128 ==> r@ == seq![ascii_upper(c)],
{
    c.to_uppercase().collect()
}

/// Relies on `char::to_lowercase`, collected into characters.
#[verifier::external_body]
fn char_to_lower(c: char) -> (r: Vec<char>)
    ensures
        r@ == char_lower_of(c),
        (c as u32) < 128 ==> r@ == seq![ascii_lower(c)],
{
    c.to_lowercase().collect()
}

/// Relies on `char::escape_default`, collected into characters: tab, return
/// and newline become `\t`, `\r`, `\n`; a quote, double quote or backslash
/// gets a backslash before it; other printable ASCII stays as it is.
#[verifier::external_body]
pub(crate) fn escape_char(c: char) -> (r: Vec<char>)
    ensures
        r@ == escape_of(c),
        c == '\t' ==> r@ == seq!['\\', 't'],
        c == '\r' ==> r@ == seq!['\\', 'r'],
        c == '\n' ==> r@ == seq!['\\', 'n'],
        (c == '\'' || c == '"' || c == '\\') ==> r@ == seq!['\\', c],
        (0x20 <= (c as u32) <= 0x7e && c != '\'' && c != '"' && c != '\\') ==> r@ == seq![c],
{
    c.escape_default().collect()
}

/// `_` before every uppercase character that follows something other than `_`.
pub open spec fn snake_marks(s: Seq<char>, prev: char) -> Seq<char>
    decreases s.len(),
{
    if s.len() == 0 {
        Seq::empty()
    } else {
        let ch = s[0];
        let sep: Seq<char> = if is_upper(ch) && prev != '_' {
            seq!['_']
        } else {
            Seq::empty()
        };
        sep + seq![ch] + snake_marks(s.drop_first(), ch)
    }
}

/// The `snake` modifier: word breaks before capitals, then lowercase.
pub open spec fn snake_of(s: Seq<char>) -> Seq<char> {
    lower_of(snake_marks(s, '_'))
}

/// Drops every `_`, capitalises the character after one (and the first), and
/// lowercases a character that follows an uppercase one.
pub open spec fn camel_from(s: Seq<char>, prev: char) -> Seq<char>
    decreases s.len(),
{
    if s.len() == 0 {
        Seq::empty()
    } else {
        let ch = s[0];
        let here: Seq<char> = if ch == '_' {
            Seq::empty()
        } else if prev == '_' {
            char_upper_of(ch)
        } else if is_upper(prev) {
            char_lower_of(ch)
        } else {
            seq![ch]
        };
        here + camel_from(s.drop_first(), ch)
    }
}

/// The `camel` modifier.
pub open spec fn camel_of(s: Seq<char>) -> Seq<char> {
    camel_from(s, '_')
}

/// `snake_marks` on ASCII text, where the uppercase characters are `A`..`Z`.
pub open spec fn ascii_snake_marks(s: Seq<char>, prev: char) -> Seq<char>
    decreases s.len(),
{
    if s.len() == 0 {
        Seq::empty()
    } else {
        let ch = s[0];
        let sep: Seq<char> = if 'A' <= ch <= 'Z' && prev != '_' {
            seq!['_']
        } else {
            Seq::empty()
        };
        sep + seq![ch] + ascii_snake_marks(s.drop_first(), ch)
    }
}

/// `camel_from` on ASCII text.
pub open spec fn ascii_camel_from(s: Seq<char>, prev: char) -> Seq<char>
    decreases s.len(),
{
    if s.len() == 0 {
        Seq::empty()
    } else {
        let ch = s[0];
        let here: Seq<char> = if ch == '_' {
            Seq::empty()
        } else if prev == '_' {
            seq![ascii_upper(ch)]
        } else if 'A' <= prev <= 'Z' {
            seq![ascii_lower(ch)]
        } else {
            seq![ch]
        };
        here + ascii_camel_from(s.drop_first(), ch)
    }
}

proof fn lemma_snake_step(s: Seq<char>, i: int, prev: char)
    requires
        0 <= i < s.len(),
        prev == (if i == 0 { '_' } else { s[i - 1] }),
    ensures
        snake_marks(s.subrange(i, s.len() as int), prev) == (if is_upper(s[i]) && prev != '_' {
            seq!['_']
        } else {
            Seq::<char>::empty()
        }) + seq![s[i]] + snake_marks(s.subrange(i + 1, s.len() as int), s[i]),
{
    assert(s.subrange(i, s.len() as int).drop_first() =~= s.subrange(i + 1, s.len() as int));
}

/// The `snake` modifier. On ASCII text: a `_` before every `A`..`Z` that
/// follows something other than `_`, then ASCII lowercase.
pub fn snake_case(s: &Vec<char>) -> (r: Vec<char>)
    ensures
        r@ == snake_of(s@),
        all_ascii(s@) ==> r@ == ascii_snake_marks(s@, '_').map_values(|c: char| ascii_lower(c)),
{
    let mut acc: Vec<char> = Vec::new();
    let mut prev: char = '_';
    let mut i: usize = 0;
    assert(s@.subrange(0, s@.len() as int) =~= s@);
    assert(acc@ + snake_marks(s@, '_') =~= snake_marks(s@, '_'));
    assert(acc@ + ascii_snake_marks(s@, '_') =~= ascii_snake_marks(s@, '_'));
    while i < s.len()
        invariant
            i <= s@.len(),
            prev == (if i == 0 { '_' } else { s@[i - 1] }),
            acc@ + snake_marks(s@.subrange(i as int, s@.len() as int), prev) == snake_marks(s@, '_'),
            all_ascii(s@) ==> all_ascii(acc@) && acc@ + ascii_snake_marks(s@.subrange(i as int, s@.len() as int), prev)
                == ascii_snake_marks(s@, '_'),
        decreases s@.len() - i,
    {
        let ch = s[i];
        proof {
            lemma_snake_step(s@, i as int, prev);
            assert(s@.subrange(i as int, s@.len() as int).drop_first() =~= s@.subrange(i + 1, s@.len() as int));
        }
        let ghost before = acc@;
        let up = char_is_upper(ch);
        if up && prev != '_' {
            acc.push('_');
        }
        acc.push(ch);
        proof {
            let sep: Seq<char> = if is_upper(ch) && prev != '_' { seq!['_'] } else { Seq::empty() };
            assert(acc@ == before + sep + seq![ch]);
            assert(acc@ + snake_marks(s@.subrange(i + 1, s@.len() as int), ch) =~= before + (sep
                + seq![ch] + snake_marks(s@.subrange(i + 1, s@.len() as int), ch)));
            if all_ascii(s@) {
                assert((ch as u32) < 128);
                let asep: Seq<char> = if 'A' <= ch <= 'Z' && prev != '_' { seq!['_'] } else { Seq::empty() };
                assert(acc@ == before + asep + seq![ch]);
                assert(acc@ + ascii_snake_marks(s@.subrange(i + 1, s@.len() as int), ch) =~= before + (asep
                    + seq![ch] + ascii_snake_marks(s@.subrange(i + 1, s@.len() as int), ch)));
                assert forall|k: int| 0 <= k < acc@.len() implies (acc@[k] as u32) < 128 by {
                    if k < before.len() {
                        assert(acc@[k] == before[k]);
                    }
                }
            }
        }
        prev = ch;
        i = i + 1;
    }
    assert(s@.subrange(0, s@.len() as int) =~= s@);
    assert(acc@ + snake_marks(s@.subrange(i as int, s@.len() as int), prev) =~= acc@);
    assert(acc@ + ascii_snake_marks(s@.subrange(i as int, s@.len() as int), prev) =~= acc@);
    to_lower(&acc)
}

fn push_all(acc: &mut Vec<char>, v: &Vec<char>)
    ensures
        final(acc)@ == old(acc)@ + v@,
{
    let mut i: usize = 0;
    while i < v.len()
        invariant
            i <= v@.len(),
            acc@ == old(acc)@ + v@.subrange(0, i as int),
        decreases v@.len() - i,
    {
        acc.push(v[i]);
        proof {
            assert(v@.subrange(0, i + 1) =~= v@.subrange(0, i as int).push(v@[i as int]));
        }
        i = i + 1;
    }
    assert(v@ =~= v@.subrange(0, i as int));
}

/// The `camel` modifier. On ASCII text: every `_` dropped, the character
/// after one (and the first) made ASCII uppercase, a character after `A`..`Z`
/// made ASCII lowercase.
pub fn camel_case(s: &Vec<char>) -> (r: Vec<char>)
    ensures
        r@ == camel_of(s@),
        all_ascii(s@) ==> r@ == ascii_camel_from(s@, '_'),
{
    let mut acc: Vec<char> = Vec::new();
    let mut prev: char = '_';
    let mut i: usize = 0;
    assert(s@.subrange(0, s@.len() as int) =~= s@);
    assert(acc@ + camel_of(s@) =~= camel_of(s@));
    assert(acc@ + ascii_camel_from(s@, '_') =~= ascii_camel_from(s@, '_'));
    while i < s.len()
        invariant
            i <= s@.len(),
            prev == (if i == 0 { '_' } else { s@[i - 1] }),
            acc@ + camel_from(s@.subrange(i as int, s@.len() as int), prev) == camel_of(s@),
            all_ascii(s@) ==> acc@ + ascii_camel_from(s@.subrange(i as int, s@.len() as int), prev)
                == ascii_camel_from(s@, '_'),
        decreases s@.len() - i,
    {
        let ch = s[i];
        let ghost before = acc@;
        proof {
            assert(s@.subrange(i as int, s@.len() as int).drop_first() =~= s@.subrange(
                i + 1,
                s@.len() as int,
            ));
        }
        if ch != '_' {
            if prev == '_' {
                let u = char_to_upper(ch);
                push_all(&mut acc, &u);
            } else if char_is_upper(prev) {
                let l = char_to_lower(ch);
                push_all(&mut acc, &l);
            } else {
                acc.push(ch);
            }
        }
        proof {
            let here: Seq<char> = if ch == '_' {
                Seq::empty()
            } else if prev == '_' {
                char_upper_of(ch)
            } else if is_upper(prev) {
                char_lower_of(ch)
            } else {
                seq![ch]
            };
            assert(acc@ =~= before + here);
            assert(acc@ + camel_from(s@.subrange(i + 1, s@.len() as int), ch) =~= before + (here
                + camel_from(s@.subrange(i + 1, s@.len() as int), ch)));
            if all_ascii(s@) {
                assert((ch as u32) < 128);
                assert((prev as u32) < 128);
                let ahere: Seq<char> = if ch == '_' {
                    Seq::empty()
                } else if prev == '_' {
                    seq![ascii_upper(ch)]
                } else if 'A' <= prev <= 'Z' {
                    seq![ascii_lower(ch)]
                } else {
                    seq![ch]
                };
                assert(acc@ =~= before + ahere);
                assert(acc@ + ascii_camel_from(s@.subrange(i + 1, s@.len() as int), ch) =~= before + (ahere
                    + ascii_camel_from(s@.subrange(i + 1, s@.len() as int), ch)));
            }
        }
        prev = ch;
        i = i + 1;
    }
    assert(s@.subrange(0, s@.len() as int) =~= s@);
    assert(acc@ + camel_from(s@.subrange(i as int, s@.len() as int), prev) =~= acc@);
    acc
}

} // verus!
