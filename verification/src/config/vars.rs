//! Substitution of `%NAME%` in commands.

use crate::config::registry::Registry;
use crate::text::{from_chars, to_chars};
use vstd::prelude::*;

verus! {

/// Values by variable name.
pub type Vars = Registry<String>;

/// Whether a character can stand in a variable name.
pub open spec fn key_char(c: char) -> bool {
    'a' <= c <= 'z' || 'A' <= c <= 'Z' || '0' <= c <= '9' || c == '_'
}

/// Letters, digits and underscores, at least one.
pub open spec fn valid_key(key: Seq<char>) -> bool {
    key.len() > 0 && forall|i: int| 0 <= i < key.len() ==> key_char(#[trigger] key[i])
}

/// The position of the first percent sign, or the length.
pub open spec fn first_percent(s: Seq<char>) -> int
    decreases s.len(),
{
    if s.len() == 0 || s[0] == '%' {
        0
    } else {
        1 + first_percent(s.skip(1))
    }
}

/// The name between a percent sign at the start of `s` and the next one.
pub open spec fn leading_key(s: Seq<char>) -> Option<Seq<char>> {
    if s.len() > 0 && s[0] == '%' && first_percent(s.skip(1)) < s.len() - 1 {
        Some(s.skip(1).take(first_percent(s.skip(1))))
    } else {
        None
    }
}

/// The variable that `s` starts with a reference to.
pub open spec fn leading_var(s: Seq<char>, vars: Map<Seq<char>, String>) -> Option<Seq<char>> {
    match leading_key(s) {
        Some(key) => if valid_key(key) && vars.dom().contains(key) {
            Some(key)
        } else {
            None
        },
        None => None,
    }
}

/// `s` with the references to variables replaced by their values, from left
/// to right; everything else stays as it is.
pub open spec fn substituted(s: Seq<char>, vars: Map<Seq<char>, String>) -> Seq<char>
    decreases s.len(),
{
    if s.len() == 0 {
        s
    } else {
        match leading_var(s, vars) {
            Some(key) => {
                proof {
                    lemma_first_percent(s.skip(1));
                }
                vars[key]@ + substituted(s.skip(key.len() as int + 2), vars)
            },
            None => seq![s[0]] + substituted(s.skip(1), vars),
        }
    }
}

pub proof fn lemma_first_percent(s: Seq<char>)
    ensures
        0 <= first_percent(s) <= s.len(),
        first_percent(s) < s.len() ==> s[first_percent(s)] == '%',
    decreases s.len(),
{
    if s.len() > 0 && s[0] != '%' {
        lemma_first_percent(s.skip(1));
    }
}

/// Text in which no known variable is referred to is left untouched.
pub proof fn unknown_names_are_left_untouched(s: Seq<char>, vars: Map<Seq<char>, String>)
    requires
        forall|i: int| 0 <= i <= s.len() ==> leading_var(#[trigger] s.skip(i), vars) is None,
    ensures
        substituted(s, vars) == s,
    decreases s.len(),
{
    if s.len() > 0 {
        assert(s.skip(0) =~= s);
        assert(leading_var(s.skip(0), vars) is None);
        let t = s.skip(1);
        assert forall|i: int| 0 <= i <= t.len() implies leading_var(
            #[trigger] t.skip(i),
            vars,
        ) is None by {
            assert(t.skip(i) =~= s.skip(i + 1));
            assert(leading_var(s.skip(i + 1), vars) is None);
        }
        unknown_names_are_left_untouched(t, vars);
        assert(seq![s[0]] + t =~= s);
    }
}

/// A reference to a variable is replaced by its value, which is not looked
/// into again, and what follows it is treated on its own.
pub proof fn reference_is_replaced(key: Seq<char>, rest: Seq<char>, vars: Map<Seq<char>, String>)
    requires
        valid_key(key),
        vars.dom().contains(key),
    ensures
        substituted(seq!['%'] + key + seq!['%'] + rest, vars) == vars[key]@ + substituted(
            rest,
            vars,
        ),
{
    let s = seq!['%'] + key + seq!['%'] + rest;
    assert(s.skip(1) =~= key + seq!['%'] + rest);
    lemma_percent_after_key(key, rest);
    assert(s.skip(1).take(key.len() as int) =~= key);
    assert(s.skip(key.len() as int + 2) =~= rest);
}

/// A name is made of letters and digits of ASCII and of underscores.
pub proof fn names_are_words(key: Seq<char>)
    ensures
        valid_key(key) <==> key.len() > 0 && forall|i: int|
            0 <= i < key.len() ==> {
                let c = #[trigger] key[i] as int;
                ||| 48 <= c <= 57
                ||| 65 <= c <= 90
                ||| 97 <= c <= 122
                ||| c == 95
            },
{
    assert forall|i: int| 0 <= i < key.len() implies (key_char(#[trigger] key[i]) <==> {
        let c = key[i] as int;
        ||| 48 <= c <= 57
        ||| 65 <= c <= 90
        ||| 97 <= c <= 122
        ||| c == 95
    }) by {}
}

/// Text without percent signs.
pub open spec fn plain(s: Seq<char>) -> bool {
    forall|i: int| 0 <= i < s.len() ==> #[trigger] s[i] != '%'
}

/// Text in front of a percent sign is left as it is, and what follows is
/// treated on its own; text without percent signs is left as it is.
pub proof fn plain_text_is_kept(s: Seq<char>, rest: Seq<char>, vars: Map<Seq<char>, String>)
    requires
        plain(s),
    ensures
        substituted(s + rest, vars) == s + substituted(rest, vars),
        substituted(s, vars) == s,
    decreases s.len(),
{
    if s.len() == 0 {
        assert(s + rest =~= rest);
        assert(s + substituted(rest, vars) =~= substituted(rest, vars));
    } else {
        let t = s.skip(1);
        assert(s[0] != '%');
        assert forall|i: int| 0 <= i < t.len() implies #[trigger] t[i] != '%' by {
            assert(t[i] == s[i + 1]);
        }
        plain_text_is_kept(t, rest, vars);
        assert((s + rest).skip(1) =~= t + rest);
        assert(substituted(s + rest, vars) =~= s + substituted(rest, vars));
        assert(substituted(s, vars) =~= s);
    }
}

/// In a text that refers to a variable the reference gives way to its value.
pub proof fn reference_gives_way_to_the_value(
    before: Seq<char>,
    key: Seq<char>,
    rest: Seq<char>,
    vars: Map<Seq<char>, String>,
)
    requires
        plain(before),
        valid_key(key),
        vars.dom().contains(key),
    ensures
        substituted(before + (seq!['%'] + key + seq!['%'] + rest), vars) == before + (vars[key]@
            + substituted(rest, vars)),
        plain(rest) ==> substituted(before + (seq!['%'] + key + seq!['%'] + rest), vars) == before
            + (vars[key]@ + rest),
{
    plain_text_is_kept(before, seq!['%'] + key + seq!['%'] + rest, vars);
    reference_is_replaced(key, rest, vars);
    if plain(rest) {
        plain_text_is_kept(rest, Seq::empty(), vars);
    }
}

proof fn lemma_percent_after_key(key: Seq<char>, rest: Seq<char>)
    requires
        forall|i: int| 0 <= i < key.len() ==> key_char(#[trigger] key[i]),
    ensures
        first_percent(key + seq!['%'] + rest) == key.len(),
    decreases key.len(),
{
    let s = key + seq!['%'] + rest;
    if key.len() > 0 {
        assert(key_char(key[0]));
        let t = key.skip(1);
        assert forall|i: int| 0 <= i < t.len() implies key_char(#[trigger] t[i]) by {
            assert(key_char(key[i + 1]));
        }
        lemma_percent_after_key(t, rest);
        assert(s.skip(1) =~= t + seq!['%'] + rest);
    }
}

fn is_valid_key(key: &str) -> (r: bool)
    ensures
        r == (forall|i: int| 0 <= i < key@.len() ==> key_char(#[trigger] key@[i])),
{
    let cs = to_chars(key);
    let mut i: usize = 0;
    while i < cs.len()
        invariant
            i <= cs@.len(),
            cs@ == key@,
            forall|k: int| 0 <= k < i ==> key_char(#[trigger] cs@[k]),
        decreases cs@.len() - i,
    {
        let c = cs[i];
        if !(('a' <= c && c <= 'z') || ('A' <= c && c <= 'Z') || ('0' <= c && c <= '9') || c
            == '_') {
            proof {
                assert(!key_char(key@[i as int]));
            }
            return false;
        }
        i += 1;
    }
    true
}

fn find_percent(cs: &Vec<char>, from: usize) -> (r: usize)
    requires
        from <= cs@.len(),
    ensures
        from <= r <= cs@.len(),
        r - from == first_percent(cs@.skip(from as int)),
{
    let mut i: usize = from;
    while i < cs.len() && cs[i] != '%'
        invariant
            from <= i <= cs@.len(),
            first_percent(cs@.skip(from as int)) == i - from + first_percent(cs@.skip(i as int)),
        decreases cs@.len() - i,
    {
        proof {
            assert(cs@.skip(i as int).skip(1) =~= cs@.skip(i + 1));
        }
        i += 1;
    }
    i
}

/// Replaces `%NAME%` by the value of the variable; what names no variable is
/// left as it is.
pub fn substitute_vars(s: &str, vars: &Vars) -> (r: String)
    requires
        vars.wf(),
    ensures
        r@ == substituted(s@, vars@),
{
    let cs = to_chars(s);
    let percent = find_percent(&cs, 0);
    if vars.is_empty() || percent == cs.len() {
        proof {
            assert(cs@.skip(0) =~= cs@);
            assert forall|i: int| 0 <= i <= s@.len() implies leading_var(
                #[trigger] s@.skip(i),
                vars@,
            ) is None by {
                if percent == cs@.len() && i < s@.len() {
                    lemma_no_percent(s@, i);
                }
            }
            unknown_names_are_left_untouched(s@, vars@);
        }
        return s.to_owned();
    }
    let mut out = String::new();
    let mut i: usize = 0;
    proof {
        assert(cs@.skip(0) =~= cs@);
        assert(out@ + substituted(cs@, vars@) =~= substituted(cs@, vars@));
    }
    while i < cs.len()
        invariant
            i <= cs@.len(),
            cs@ == s@,
            vars.wf(),
            out@ + substituted(cs@.skip(i as int), vars@) == substituted(s@, vars@),
        decreases cs@.len() - i,
    {
        let ghost rest = cs@.skip(i as int);
        proof {
            assert(rest[0] == cs@[i as int]);
            assert(rest.skip(1) =~= cs@.skip(i + 1));
        }
        if cs[i] == '%' {
            let end = find_percent(&cs, i + 1);
            if end < cs.len() {
                let key = from_chars(&cs, i + 1, end);
                proof {
                    assert(key@ =~= rest.skip(1).take(end - i - 1));
                    assert(leading_key(rest) == Some(key@));
                    assert(key@.len() == end - i - 1);
                }
                if end > i + 1 && is_valid_key(key.as_str()) {
                    match vars.get(key.as_str()) {
                        Some(value) => {
                            let ghost before = out@;
                            out.append(value.as_str());
                            proof {
                                assert(leading_var(rest, vars@) == Some(key@));
                                assert(rest.skip(key@.len() as int + 2) =~= cs@.skip(end + 1));
                                assert(out@ + substituted(cs@.skip(end + 1), vars@) =~= before + (
                                value@ + substituted(cs@.skip(end + 1), vars@)));
                            }
                            i = end + 1;
                            continue;
                        },
                        None => {},
                    }
                }
                proof {
                    assert(leading_var(rest, vars@) is None);
                }
            } else {
                proof {
                    assert(leading_key(rest) is None);
                }
            }
        }
        let ghost before = out@;
        out.push(cs[i]);
        proof {
            assert(leading_var(rest, vars@) is None);
            assert(out@ + substituted(cs@.skip(i + 1), vars@) =~= before + (seq![rest[0]]
                + substituted(cs@.skip(i + 1), vars@)));
        }
        i += 1;
    }
    proof {
        assert(out@ + substituted(cs@.skip(i as int), vars@) =~= out@);
    }
    out
}

proof fn lemma_no_percent(s: Seq<char>, i: int)
    requires
        first_percent(s) == s.len(),
        0 <= i < s.len(),
    ensures
        s[i] != '%',
        s.skip(i)[0] == s[i],
    decreases s.len(),
{
    if i > 0 {
        lemma_first_percent(s.skip(1));
        lemma_no_percent(s.skip(1), i - 1);
    }
}

} // verus!
