//! Normalization of raw `collection/property` names into canonical
//! class and property identifiers.

use vstd::prelude::*;

verus! {

/// The Unicode uppercase expansion of one character, as the standard
/// library's case mapping yields it; it may be more than one character.
pub uninterp spec fn uppercase_of(c: char) -> Seq<char>;

/// The first character replaced by its uppercase expansion, the rest
/// unchanged.
pub open spec fn capitalize_spec(s: Seq<char>) -> Seq<char> {
    if s.len() == 0 {
        s
    } else {
        uppercase_of(s[0]) + s.drop_first()
    }
}

/// Walks the characters of an underscore-separated name: underscores are
/// dropped, and the character right after each underscore is replaced by
/// its uppercase expansion. `cap_next` carries whether the next literal
/// character follows an underscore.
pub open spec fn merge_segments(s: Seq<char>, cap_next: bool) -> Seq<char>
    decreases s.len(),
{
    if s.len() == 0 {
        s
    } else if s[0] == '_' {
        merge_segments(s.drop_first(), true)
    } else {
        (if cap_next {
            uppercase_of(s[0])
        } else {
            seq![s[0]]
        }) + merge_segments(s.drop_first(), false)
    }
}

/// snake_case merged to camelCase: each underscore is removed and the
/// segment after it starts upper-cased; the first segment is untouched.
pub open spec fn case_normalize_spec(s: Seq<char>) -> Seq<char> {
    merge_segments(s, false)
}

/// Index of the first occurrence of `c` in `s`, or `s.len()` if absent.
pub open spec fn find_char(s: Seq<char>, c: char) -> int
    decreases s.len(),
{
    if s.len() == 0 {
        0
    } else if s[0] == c {
        0
    } else {
        1 + find_char(s.drop_first(), c)
    }
}

pub proof fn lemma_find_char(s: Seq<char>, c: char)
    ensures
        0 <= find_char(s, c) <= s.len(),
        find_char(s, c) < s.len() ==> s[find_char(s, c)] == c,
        forall|j: int| 0 <= j < find_char(s, c) ==> s[j] != c,
    decreases s.len(),
{
    if s.len() > 0 && s[0] != c {
        lemma_find_char(s.drop_first(), c);
        assert forall|j: int| 0 <= j < find_char(s, c) implies s[j] != c by {
            if j > 0 {
                assert(s.drop_first()[j - 1] == s[j]);
            }
        }
    }
}

/// If a name is namespace-prefixed (`ns:rest`), the part between the first
/// and second colon; otherwise the name itself.
pub open spec fn remove_namespace_spec(s: Seq<char>) -> Seq<char> {
    let i = find_char(s, ':');
    if i == s.len() {
        s
    } else {
        let rest = s.skip(i + 1);
        rest.take(find_char(rest, ':'))
    }
}

/// A raw collection name standardized into a class identifier: namespace
/// stripped, first character upper-cased, underscored segments merged.
pub open spec fn class_name_spec(s: Seq<char>) -> Seq<char> {
    case_normalize_spec(capitalize_spec(remove_namespace_spec(s)))
}

/// A raw property name standardized: underscored segments merged.
pub open spec fn property_name_spec(s: Seq<char>) -> Seq<char> {
    case_normalize_spec(s)
}

/// Relies on char::to_uppercase: the Unicode uppercase expansion of a
/// character depends on the character alone; for an ASCII lower-case
/// letter it is the single corresponding upper-case letter.
#[verifier::external_body]
fn char_to_uppercase(c: char) -> (r: String)
    ensures
        r@ == uppercase_of(c),
        'a' <= c <= 'z' ==> r@ == seq![((c as u8) - 32) as char],
{
    c.to_uppercase().collect()
}

/// Relies on String::push: appends one character at the end.
#[verifier::external_body]
pub(crate) fn push_char(s: &mut String, c: char)
    ensures
        final(s)@ == old(s)@.push(c),
{
    s.push(c)
}

/// Replaces the first character of a string by its uppercase expansion.
pub fn capitalize(string: &str) -> (r: String)
    ensures
        r@ == capitalize_spec(string@),
{
    let len = string.unicode_len();
    if len == 0 {
        String::new()
    } else {
        let first = string.get_char(0);
        let mut out = char_to_uppercase(first);
        let rest = string.substring_char(1, len);
        out.append(rest);
        proof {
            assert(out@ =~= capitalize_spec(string@));
        }
        out
    }
}

/// Merges an underscore-separated name to camelCase, keeping the case of
/// the leading character.
pub fn case_normalize(string: &str) -> (r: String)
    ensures
        r@ == case_normalize_spec(string@),
{
    let len = string.unicode_len();
    let mut out = String::new();
    let mut cap_next = false;
    let mut i: usize = 0;
    proof {
        assert(string@.skip(0) =~= string@);
    }
    while i < len
        invariant
            len == string@.len(),
            i <= len,
            case_normalize_spec(string@) == out@ + merge_segments(string@.skip(i as int), cap_next),
        decreases len - i,
    {
        let c = string.get_char(i);
        proof {
            assert(string@.skip(i as int)[0] == c);
            assert(string@.skip(i as int).drop_first() =~= string@.skip(i + 1));
        }
        if c == '_' {
            cap_next = true;
        } else {
            if cap_next {
                let up = char_to_uppercase(c);
                out.append(up.as_str());
            } else {
                push_char(&mut out, c);
            }
            cap_next = false;
        }
        i = i + 1;
    }
    proof {
        assert(string@.skip(len as int) =~= Seq::<char>::empty());
        assert(out@ + merge_segments(string@.skip(len as int), cap_next) =~= out@);
    }
    out
}

/// Position of the first occurrence of `c` at or after `from`, or the
/// string's length if there is none.
pub fn find_char_from(string: &str, c: char, from: usize, len: usize) -> (r: usize)
    requires
        len == string@.len(),
        from <= len,
    ensures
        from <= r <= len,
        r - from == find_char(string@.skip(from as int), c),
{
    let mut i = from;
    while i < len
        invariant
            len == string@.len(),
            from <= i <= len,
            forall|j: int| from <= j < i ==> string@[j] != c,
        decreases len - i,
    {
        if string.get_char(i) == c {
            proof {
                lemma_found_at(string@, c, from as int, i as int);
            }
            return i;
        }
        i = i + 1;
    }
    proof {
        lemma_not_found(string@, c, from as int);
    }
    len
}

proof fn lemma_found_at(s: Seq<char>, c: char, from: int, i: int)
    requires
        0 <= from <= i < s.len(),
        s[i] == c,
        forall|j: int| from <= j < i ==> s[j] != c,
    ensures
        find_char(s.skip(from), c) == i - from,
    decreases i - from,
{
    if from < i {
        assert(s.skip(from)[0] == s[from]);
        assert(s.skip(from).drop_first() =~= s.skip(from + 1));
        lemma_found_at(s, c, from + 1, i);
    } else {
        assert(s.skip(from)[0] == c);
    }
}

proof fn lemma_not_found(s: Seq<char>, c: char, from: int)
    requires
        0 <= from <= s.len(),
        forall|j: int| from <= j < s.len() ==> s[j] != c,
    ensures
        find_char(s.skip(from), c) == s.len() - from,
    decreases s.len() - from,
{
    if from < s.len() {
        assert(s.skip(from)[0] == s[from]);
        assert(s.skip(from).drop_first() =~= s.skip(from + 1));
        lemma_not_found(s, c, from + 1);
    }
}

/// Strips a `namespace:` prefix: for `ns:rest` returns the part of `rest`
/// before any further colon; a name with no colon is returned unchanged.
pub fn remove_namespace(string: &str) -> (r: String)
    ensures
        r@ == remove_namespace_spec(string@),
{
    let len = string.unicode_len();
    let first = find_char_from(string, ':', 0, len);
    proof {
        assert(string@.skip(0) =~= string@);
    }
    if first == len {
        string.to_owned()
    } else {
        let second = find_char_from(string, ':', first + 1, len);
        let r = string.substring_char(first + 1, second);
        proof {
            let rest = string@.skip(first + 1);
            assert(rest.take(find_char(rest, ':')) =~= string@.subrange(
                first + 1,
                second as int,
            ));
        }
        r.to_owned()
    }
}

/// Strips one leading underscore, if present.
pub fn remove_underscore(string: &str) -> (r: String)
    ensures
        r@ == if string@.len() > 0 && string@[0] == '_' {
            string@.drop_first()
        } else {
            string@
        },
{
    let len = string.unicode_len();
    if len > 0 && string.get_char(0) == '_' {
        let rest = string.substring_char(1, len);
        proof {
            assert(string@.subrange(1, len as int) =~= string@.drop_first());
        }
        rest.to_owned()
    } else {
        string.to_owned()
    }
}

/// snake_case merged to camelCase; the leading character keeps its case.
pub fn standardize(string: &str) -> (r: String)
    ensures
        r@ == case_normalize_spec(string@),
{
    case_normalize(string)
}

/// Canonical class identifier for a raw collection name.
pub fn standardize_class_name(string: &str) -> (r: String)
    ensures
        r@ == class_name_spec(string@),
{
    let stripped = remove_namespace(string);
    let capped = capitalize(stripped.as_str());
    case_normalize(capped.as_str())
}

/// Canonical property identifier for a raw property name.
pub fn standardize_property_name(string: &str) -> (r: String)
    ensures
        r@ == property_name_spec(string@),
{
    case_normalize(string)
}

} // verus!
