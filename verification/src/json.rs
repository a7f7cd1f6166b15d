//! A self-contained JSON value model. Raw source records, predicate
//! payloads and the emitted JSON-LD documents are all values of this type;
//! its mathematical counterpart is [`SpecJson`].

use vstd::prelude::*;

verus! {

/// Mathematical model of a JSON value. Object entries keep their order;
/// a number that is not a 64-bit integer is carried in its source text.
#[verifier::ext_equal]
pub enum SpecJson {
    Null,
    Bool(bool),
    Int(int),
    Decimal(Seq<char>),
    Str(Seq<char>),
    Arr(Seq<SpecJson>),
    Obj(Seq<(Seq<char>, SpecJson)>),
}

/// A JSON value. Numbers that fit an `i64` are `Int`; any other number is
/// carried in its source text as `Decimal` so it passes through unchanged.
#[derive(Debug, PartialEq, Eq)]
pub enum JsonValue {
    Null,
    Bool(bool),
    Int(i64),
    Decimal(String),
    Str(String),
    Arr(Vec<JsonValue>),
    Obj(Vec<(String, JsonValue)>),
}

/// The model of an array's elements.
pub open spec fn json_view_seq(items: Seq<JsonValue>) -> Seq<SpecJson>
    decreases items,
{
    if items.len() == 0 {
        Seq::empty()
    } else {
        seq![json_view(items[0])] + json_view_seq(items.drop_first())
    }
}

/// The model of an object's entries.
pub open spec fn json_view_entries(entries: Seq<(String, JsonValue)>) -> Seq<
    (Seq<char>, SpecJson),
>
    decreases entries,
{
    if entries.len() == 0 {
        Seq::empty()
    } else {
        seq![(entries[0].0@, json_view(entries[0].1))] + json_view_entries(entries.drop_first())
    }
}

/// The model of a JSON value.
pub open spec fn json_view(v: JsonValue) -> SpecJson
    decreases v,
{
    match v {
        JsonValue::Null => SpecJson::Null,
        JsonValue::Bool(b) => SpecJson::Bool(b),
        JsonValue::Int(n) => SpecJson::Int(n as int),
        JsonValue::Decimal(s) => SpecJson::Decimal(s@),
        JsonValue::Str(s) => SpecJson::Str(s@),
        JsonValue::Arr(items) => SpecJson::Arr(json_view_seq(items@)),
        JsonValue::Obj(entries) => SpecJson::Obj(json_view_entries(entries@)),
    }
}

impl View for JsonValue {
    type V = SpecJson;

    open spec fn view(&self) -> SpecJson {
        json_view(*self)
    }
}

pub broadcast proof fn lemma_json_view_seq_len(items: Seq<JsonValue>)
    ensures
        #[trigger] json_view_seq(items).len() == items.len(),
    decreases items,
{
    if items.len() > 0 {
        lemma_json_view_seq_len(items.drop_first());
    }
}

pub broadcast proof fn lemma_json_view_seq_index(items: Seq<JsonValue>, i: int)
    requires
        0 <= i < items.len(),
    ensures
        #[trigger] json_view_seq(items)[i] == json_view(items[i]),
    decreases items,
{
    lemma_json_view_seq_len(items);
    if i > 0 {
        lemma_json_view_seq_index(items.drop_first(), i - 1);
    }
}

pub broadcast proof fn lemma_json_view_entries_len(entries: Seq<(String, JsonValue)>)
    ensures
        #[trigger] json_view_entries(entries).len() == entries.len(),
    decreases entries,
{
    if entries.len() > 0 {
        lemma_json_view_entries_len(entries.drop_first());
    }
}

pub broadcast proof fn lemma_json_view_entries_index(entries: Seq<(String, JsonValue)>, i: int)
    requires
        0 <= i < entries.len(),
    ensures
        #[trigger] json_view_entries(entries)[i] == (entries[i].0@, json_view(entries[i].1)),
    decreases entries,
{
    lemma_json_view_entries_len(entries);
    if i > 0 {
        lemma_json_view_entries_index(entries.drop_first(), i - 1);
    }
}

/// The value of the first entry named `key`, if any.
pub open spec fn obj_get(entries: Seq<(Seq<char>, SpecJson)>, key: Seq<char>) -> Option<SpecJson>
    decreases entries,
{
    if entries.len() == 0 {
        Option::None
    } else if entries[0].0 == key {
        Option::Some(entries[0].1)
    } else {
        obj_get(entries.drop_first(), key)
    }
}

/// A shorthand for looking a key up in a value known to be an object.
pub open spec fn spec_field(v: SpecJson, key: Seq<char>) -> Option<SpecJson> {
    match v {
        SpecJson::Obj(entries) => obj_get(entries, key),
        _ => Option::None,
    }
}

/// Relies on str's PartialEq: string slices are equal exactly when their
/// character sequences are.
#[verifier::external_body]
pub fn str_eq(a: &str, b: &str) -> (r: bool)
    ensures
        r == (a@ == b@),
{
    a == b
}

/// The lowercase hexadecimal digit for `d`.
pub open spec fn hex_digit(d: int) -> char
    recommends
        0 <= d < 16,
{
    if d < 10 {
        (48 + d) as char
    } else {
        (87 + d) as char
    }
}

/// How one character stands inside a JSON string literal: quote and
/// backslash escaped, control characters as their short escapes or a
/// lowercase `\u00XX` form, everything else as itself.
pub open spec fn escape_char(c: char) -> Seq<char> {
    if c == '"' {
        seq!['\\', '"']
    } else if c == '\\' {
        seq!['\\', '\\']
    } else if c == '\u{8}' {
        seq!['\\', 'b']
    } else if c == '\t' {
        seq!['\\', 't']
    } else if c == '\n' {
        seq!['\\', 'n']
    } else if c == '\u{c}' {
        seq!['\\', 'f']
    } else if c == '\r' {
        seq!['\\', 'r']
    } else if (c as u32) < 32 {
        seq!['\\', 'u', '0', '0', hex_digit(c as u32 as int / 16), hex_digit(c as u32 as int % 16)]
    } else {
        seq![c]
    }
}

/// A string's characters escaped for a JSON string literal.
pub open spec fn escape_string(s: Seq<char>) -> Seq<char>
    decreases s.len(),
{
    if s.len() == 0 {
        Seq::empty()
    } else {
        escape_char(s[0]) + escape_string(s.drop_first())
    }
}

/// The compact JSON text of a value: no whitespace, object entries in
/// order, strings quoted and escaped, numbers in their decimal or carried
/// source form.
pub open spec fn json_text(v: SpecJson) -> Seq<char>
    decreases v,
{
    match v {
        SpecJson::Null => "null"@,
        SpecJson::Bool(b) => if b {
            "true"@
        } else {
            "false"@
        },
        SpecJson::Int(n) => crate::display::dec_rep_signed(n),
        SpecJson::Decimal(t) => t,
        SpecJson::Str(s) => seq!['"'] + escape_string(s) + seq!['"'],
        SpecJson::Arr(items) => seq!['['] + json_text_seq(items) + seq![']'],
        SpecJson::Obj(entries) => seq!['{'] + json_text_entries(entries) + seq!['}'],
    }
}

/// The comma-separated texts of an array's elements.
pub open spec fn json_text_seq(items: Seq<SpecJson>) -> Seq<char>
    decreases items,
{
    if items.len() == 0 {
        Seq::empty()
    } else if items.len() == 1 {
        json_text(items[0])
    } else {
        json_text(items[0]) + seq![','] + json_text_seq(items.drop_first())
    }
}

/// The comma-separated `"key":value` texts of an object's entries.
pub open spec fn json_text_entries(entries: Seq<(Seq<char>, SpecJson)>) -> Seq<char>
    decreases entries,
{
    if entries.len() == 0 {
        Seq::empty()
    } else {
        let head = seq!['"'] + escape_string(entries[0].0) + seq!['"', ':'] + json_text(
            entries[0].1,
        );
        if entries.len() == 1 {
            head
        } else {
            head + seq![','] + json_text_entries(entries.drop_first())
        }
    }
}

proof fn lemma_escape_string_snoc(s: Seq<char>)
    requires
        s.len() > 0,
    ensures
        escape_string(s) == escape_string(s.drop_last()) + escape_char(s.last()),
    decreases s.len(),
{
    if s.len() == 1 {
        assert(s.drop_last() =~= Seq::<char>::empty());
        assert(s.drop_first() =~= Seq::<char>::empty());
        assert(escape_string(s) =~= escape_string(s.drop_last()) + escape_char(s.last()));
    } else {
        lemma_escape_string_snoc(s.drop_first());
        assert(s.drop_first().drop_last() =~= s.drop_last().drop_first());
        assert(s.drop_last()[0] == s[0]);
        assert(s.drop_first().last() == s.last());
        assert(escape_string(s) =~= escape_string(s.drop_last()) + escape_char(s.last()));
    }
}

proof fn lemma_json_text_seq_snoc(items: Seq<SpecJson>)
    requires
        items.len() > 0,
    ensures
        json_text_seq(items) == if items.len() == 1 {
            json_text(items.last())
        } else {
            json_text_seq(items.drop_last()) + seq![','] + json_text(items.last())
        },
    decreases items.len(),
{
    if items.len() == 1 {
    } else if items.len() == 2 {
        assert(items.drop_first()[0] == items[1]);
        assert(items.drop_last()[0] == items[0]);
        assert(json_text_seq(items.drop_first()) == json_text(items[1]));
        assert(json_text_seq(items.drop_last()) == json_text(items[0]));
        assert(json_text_seq(items) == json_text(items[0]) + seq![','] + json_text_seq(
            items.drop_first(),
        ));
        assert(json_text_seq(items) == json_text_seq(items.drop_last()) + seq![','] + json_text(
            items.last(),
        ));
    } else {
        lemma_json_text_seq_snoc(items.drop_first());
        let dl = items.drop_last();
        let df = items.drop_first();
        assert(df.drop_last() =~= dl.drop_first());
        assert(dl[0] == items[0]);
        assert(df.last() == items.last());
        assert(dl.len() >= 2);
        assert(json_text_seq(items) == json_text(items[0]) + seq![','] + json_text_seq(df));
        assert(json_text_seq(df) == json_text_seq(df.drop_last()) + seq![','] + json_text(
            items.last(),
        ));
        assert(json_text_seq(dl) == json_text(dl[0]) + seq![','] + json_text_seq(
            dl.drop_first(),
        ));
        assert(json_text_seq(items) == (json_text(items[0]) + seq![','] + json_text_seq(
            df.drop_last(),
        )) + seq![','] + json_text(items.last())) by {
            lemma_concat_assoc(
                json_text(items[0]) + seq![','],
                json_text_seq(df.drop_last()),
                seq![','] + json_text(items.last()),
            );
            lemma_concat_assoc(
                json_text(items[0]),
                seq![','],
                json_text_seq(df.drop_last()),
            );
            lemma_concat_assoc(
                json_text(items[0]) + seq![','] + json_text_seq(df.drop_last()),
                seq![','],
                json_text(items.last()),
            );
            assert(json_text_seq(items) =~= (json_text(items[0]) + seq![','] + json_text_seq(
                df.drop_last(),
            )) + seq![','] + json_text(items.last()));
        }
        assert(json_text_seq(dl) == json_text(items[0]) + seq![','] + json_text_seq(
            dl.drop_first(),
        ));
        assert(json_text_seq(items) == json_text_seq(dl) + seq![','] + json_text(items.last()));
    }
}

/// Concatenation is associative.
proof fn lemma_concat_assoc(a: Seq<char>, b: Seq<char>, c: Seq<char>)
    ensures
        (a + b) + c =~= a + (b + c),
{
}

proof fn lemma_json_text_entries_snoc(entries: Seq<(Seq<char>, SpecJson)>)
    requires
        entries.len() > 0,
    ensures
        json_text_entries(entries) == ({
            let head = seq!['"'] + escape_string(entries.last().0) + seq!['"', ':'] + json_text(
                entries.last().1,
            );
            if entries.len() == 1 {
                head
            } else {
                json_text_entries(entries.drop_last()) + seq![','] + head
            }
        }),
    decreases entries.len(),
{
    if entries.len() == 1 {
    } else if entries.len() == 2 {
        assert(entries.drop_first()[0] == entries[1]);
        assert(entries.drop_last()[0] == entries[0]);
        let head0 = seq!['"'] + escape_string(entries[0].0) + seq!['"', ':'] + json_text(
            entries[0].1,
        );
        let head1 = seq!['"'] + escape_string(entries[1].0) + seq!['"', ':'] + json_text(
            entries[1].1,
        );
        assert(json_text_entries(entries.drop_first()) == head1);
        assert(json_text_entries(entries.drop_last()) == head0);
        assert(json_text_entries(entries) == head0 + seq![','] + json_text_entries(
            entries.drop_first(),
        ));
        assert(json_text_entries(entries) == json_text_entries(entries.drop_last()) + seq![',']
            + head1);
    } else {
        lemma_json_text_entries_snoc(entries.drop_first());
        let dl = entries.drop_last();
        let df = entries.drop_first();
        assert(df.drop_last() =~= dl.drop_first());
        assert(dl[0] == entries[0]);
        assert(df.last() == entries.last());
        assert(dl.len() >= 2);
        let head0 = seq!['"'] + escape_string(entries[0].0) + seq!['"', ':'] + json_text(
            entries[0].1,
        );
        let head_last = seq!['"'] + escape_string(entries.last().0) + seq!['"', ':'] + json_text(
            entries.last().1,
        );
        assert(json_text_entries(entries) == head0 + seq![','] + json_text_entries(df));
        assert(json_text_entries(df) == json_text_entries(df.drop_last()) + seq![',']
            + head_last);
        assert(json_text_entries(entries) == (head0 + seq![','] + json_text_entries(
            df.drop_last(),
        )) + seq![','] + head_last) by {
            assert(json_text_entries(entries) =~= (head0 + seq![','] + json_text_entries(
                df.drop_last(),
            )) + seq![','] + head_last);
        }
        assert(json_text_entries(dl) == head0 + seq![','] + json_text_entries(dl.drop_first()));
        assert(json_text_entries(entries) == json_text_entries(dl) + seq![','] + head_last);
    }
}

fn hex_digit_exec(d: u32) -> (r: char)
    requires
        d < 16,
    ensures
        r == hex_digit(d as int),
{
    if d < 10 {
        (48 + d as u8) as char
    } else {
        (87 + d as u8) as char
    }
}

/// Appends a string's characters in JSON-escaped form.
#[verifier::loop_isolation(false)]
fn push_escaped(out: &mut String, s: &str)
    ensures
        final(out)@ == old(out)@ + escape_string(s@),
{
    let len = s.unicode_len();
    let mut i: usize = 0;
    proof {
        assert(s@.take(0) =~= Seq::<char>::empty());
        assert(old(out)@ + escape_string(s@.take(0)) =~= old(out)@);
    }
    while i < len
        invariant
            i <= len,
            out@ == old(out)@ + escape_string(s@.take(i as int)),
        decreases len - i,
    {
        let c = s.get_char(i);
        proof {
            assert(s@.take(i + 1).drop_last() =~= s@.take(i as int));
            assert(s@.take(i + 1).last() == c);
            lemma_escape_string_snoc(s@.take(i + 1));
        }
        if c == '"' {
            crate::names::push_char(out, '\\');
            crate::names::push_char(out, '"');
        } else if c == '\\' {
            crate::names::push_char(out, '\\');
            crate::names::push_char(out, '\\');
        } else if c == '\u{8}' {
            crate::names::push_char(out, '\\');
            crate::names::push_char(out, 'b');
        } else if c == '\t' {
            crate::names::push_char(out, '\\');
            crate::names::push_char(out, 't');
        } else if c == '\n' {
            crate::names::push_char(out, '\\');
            crate::names::push_char(out, 'n');
        } else if c == '\u{c}' {
            crate::names::push_char(out, '\\');
            crate::names::push_char(out, 'f');
        } else if c == '\r' {
            crate::names::push_char(out, '\\');
            crate::names::push_char(out, 'r');
        } else if (c as u32) < 32 {
            crate::names::push_char(out, '\\');
            crate::names::push_char(out, 'u');
            crate::names::push_char(out, '0');
            crate::names::push_char(out, '0');
            crate::names::push_char(out, hex_digit_exec((c as u32) / 16));
            crate::names::push_char(out, hex_digit_exec((c as u32) % 16));
        } else {
            crate::names::push_char(out, c);
        }
        proof {
            assert(out@ =~= old(out)@ + escape_string(s@.take(i + 1)));
        }
        i = i + 1;
    }
    proof {
        assert(s@.take(len as int) =~= s@);
    }
}

/// Renders a value as compact JSON text: no whitespace, entries in
/// order, strings quoted and escaped.
#[verifier::loop_isolation(false)]
pub fn to_json_text(v: &JsonValue) -> (r: String)
    ensures
        r@ == json_text(v@),
    decreases v,
{
    match v {
        JsonValue::Null => "null".to_owned(),
        JsonValue::Bool(b) => if *b {
            "true".to_owned()
        } else {
            "false".to_owned()
        },
        JsonValue::Int(n) => crate::display::i64_to_string(*n),
        JsonValue::Decimal(t) => t.clone(),
        JsonValue::Str(s) => {
            let mut out = String::new();
            crate::names::push_char(&mut out, '"');
            push_escaped(&mut out, s.as_str());
            crate::names::push_char(&mut out, '"');
            proof {
                assert(out@ =~= json_text(v@));
            }
            out
        },
        JsonValue::Arr(items) => {
            let ghost item_views = json_view_seq(items@);
            proof {
                lemma_json_view_seq_len(items@);
            }
            let mut out = String::new();
            crate::names::push_char(&mut out, '[');
            let n = items.len();
            let mut i: usize = 0;
            proof {
                assert(out@ =~= seq!['['] + json_text_seq(item_views.take(0))) by {
                    assert(json_text_seq(item_views.take(0)) =~= Seq::<char>::empty());
                }
            }
            while i < n
                invariant
                    i <= n,
                    out@ == seq!['['] + json_text_seq(item_views.take(i as int)),
                decreases n - i,
            {
                proof {
                    lemma_json_view_seq_index(items@, i as int);
                    assert(decreases_to!(*v => items@[i as int]));
                    assert(item_views.take(i + 1).drop_last() =~= item_views.take(i as int));
                    assert(item_views.take(i + 1).last() == item_views[i as int]);
                    lemma_json_text_seq_snoc(item_views.take(i + 1));
                }
                if i > 0 {
                    crate::names::push_char(&mut out, ',');
                }
                let text = to_json_text(&items[i]);
                out.append(text.as_str());
                proof {
                    assert(out@ =~= seq!['['] + json_text_seq(item_views.take(i + 1)));
                }
                i = i + 1;
            }
            crate::names::push_char(&mut out, ']');
            proof {
                assert(item_views.take(n as int) =~= item_views);
                assert(out@ =~= json_text(v@));
            }
            out
        },
        JsonValue::Obj(entries) => {
            let ghost entry_views = json_view_entries(entries@);
            proof {
                lemma_json_view_entries_len(entries@);
            }
            let mut out = String::new();
            crate::names::push_char(&mut out, '{');
            let n = entries.len();
            let mut i: usize = 0;
            proof {
                assert(out@ =~= seq!['{'] + json_text_entries(entry_views.take(0))) by {
                    assert(json_text_entries(entry_views.take(0)) =~= Seq::<char>::empty());
                }
            }
            while i < n
                invariant
                    i <= n,
                    out@ == seq!['{'] + json_text_entries(entry_views.take(i as int)),
                decreases n - i,
            {
                proof {
                    lemma_json_view_entries_index(entries@, i as int);
                    assert(decreases_to!(*v => entries@[i as int].1));
                    assert(entry_views.take(i + 1).drop_last() =~= entry_views.take(i as int));
                    assert(entry_views.take(i + 1).last() == entry_views[i as int]);
                    lemma_json_text_entries_snoc(entry_views.take(i + 1));
                }
                if i > 0 {
                    crate::names::push_char(&mut out, ',');
                }
                let entry = &entries[i];
                crate::names::push_char(&mut out, '"');
                push_escaped(&mut out, entry.0.as_str());
                crate::names::push_char(&mut out, '"');
                crate::names::push_char(&mut out, ':');
                let text = to_json_text(&entry.1);
                out.append(text.as_str());
                proof {
                    assert(out@ =~= seq!['{'] + json_text_entries(entry_views.take(i + 1)));
                }
                i = i + 1;
            }
            crate::names::push_char(&mut out, '}');
            proof {
                assert(entry_views.take(n as int) =~= entry_views);
                assert(out@ =~= json_text(v@));
            }
            out
        },
    }
}

impl JsonValue {
    /// Looks a key up in an object value; `None` on any other variant or
    /// when the key is absent.
    #[verifier::loop_isolation(false)]
    pub fn get_field<'a>(&'a self, key: &str) -> (r: Option<&'a JsonValue>)
        ensures
            match r {
                Option::Some(inner) => spec_field(self@, key@) == Option::Some(inner@),
                Option::None => spec_field(self@, key@) is None,
            },
    {
        match self {
            JsonValue::Obj(entries) => {
                let n = entries.len();
                let mut i: usize = 0;
                proof {
                    assert(entries@.skip(0) =~= entries@);
                }
                while i < n
                    invariant
                        n == entries@.len(),
                        i <= n,
                        obj_get(json_view_entries(entries@), key@) == obj_get(
                            json_view_entries(entries@.skip(i as int)),
                            key@,
                        ),
                    decreases n - i,
                {
                    proof {
                        broadcast use lemma_json_view_entries_len, lemma_json_view_entries_index;

                        assert(entries@.skip(i as int)[0] == entries@[i as int]);
                        assert(entries@.skip(i as int).drop_first() =~= entries@.skip(i + 1));
                        assert(json_view_entries(entries@.skip(i as int))[0] == (
                            entries@[i as int].0@,
                            json_view(entries@[i as int].1),
                        ));
                        assert(json_view_entries(entries@.skip(i as int)).drop_first()
                            =~= json_view_entries(entries@.skip(i + 1))) by {
                            lemma_view_entries_skip(entries@, i as int);
                        }
                    }
                    let entry = &entries[i];
                    if str_eq(entry.0.as_str(), key) {
                        proof {
                            assert(obj_get(json_view_entries(entries@.skip(i as int)), key@)
                                == Option::Some(json_view(entries@[i as int].1)));
                            assert(*entry == entries@[i as int]);
                            assert(self@ == SpecJson::Obj(json_view_entries(entries@)));
                            assert(spec_field(self@, key@) == obj_get(
                                json_view_entries(entries@),
                                key@,
                            ));
                        }
                        return Option::Some(&entry.1);
                    }
                    i = i + 1;
                }
                proof {
                    assert(entries@.skip(n as int) =~= Seq::<(String, JsonValue)>::empty());
                }
                Option::None
            },
            _ => Option::None,
        }
    }

    /// The integer behind an `Int` value.
    pub fn as_i64(&self) -> (r: Option<i64>)
        ensures
            match r {
                Option::Some(n) => self@ == SpecJson::Int(n as int),
                Option::None => !(self@ is Int),
            },
    {
        match self {
            JsonValue::Int(n) => Option::Some(*n),
            _ => Option::None,
        }
    }

    /// The text behind a `Str` value.
    pub fn as_str<'a>(&'a self) -> (r: Option<&'a String>)
        ensures
            match r {
                Option::Some(s) => self@ == SpecJson::Str(s@),
                Option::None => !(self@ is Str),
            },
    {
        match self {
            JsonValue::Str(s) => Option::Some(s),
            _ => Option::None,
        }
    }

    /// The truth value behind a `Bool` value.
    pub fn as_bool(&self) -> (r: Option<bool>)
        ensures
            match r {
                Option::Some(b) => self@ == SpecJson::Bool(b),
                Option::None => !(self@ is Bool),
            },
    {
        match self {
            JsonValue::Bool(b) => Option::Some(*b),
            _ => Option::None,
        }
    }

    /// Whether this value is `null`.
    pub fn is_null(&self) -> (r: bool)
        ensures
            r == (self@ is Null),
    {
        match self {
            JsonValue::Null => true,
            _ => false,
        }
    }
}

/// Sequences with pointwise equal element models have equal array models.
pub proof fn lemma_json_view_seq_pointwise(a: Seq<JsonValue>, b: Seq<JsonValue>)
    requires
        a.len() == b.len(),
        forall|i: int| 0 <= i < a.len() ==> json_view(#[trigger] a[i]) == json_view(b[i]),
    ensures
        json_view_seq(a) == json_view_seq(b),
{
    broadcast use lemma_json_view_seq_len, lemma_json_view_seq_index;

    assert(json_view_seq(a) =~= json_view_seq(b));
}

/// Entry sequences with pointwise equal models have equal object models.
pub proof fn lemma_json_view_entries_pointwise(
    a: Seq<(String, JsonValue)>,
    b: Seq<(String, JsonValue)>,
)
    requires
        a.len() == b.len(),
        forall|i: int| 0 <= i < a.len() ==> (#[trigger] a[i]).0@ == b[i].0@,
        forall|i: int| 0 <= i < a.len() ==> json_view((#[trigger] a[i]).1) == json_view(b[i].1),
    ensures
        json_view_entries(a) == json_view_entries(b),
{
    broadcast use lemma_json_view_entries_len, lemma_json_view_entries_index;

    assert(json_view_entries(a) =~= json_view_entries(b));
}

impl Clone for JsonValue {
    /// A structural copy with the same model.
    #[verifier::loop_isolation(false)]
    fn clone(&self) -> (r: Self)
        ensures
            r@ == self@,
        decreases self,
    {
        match self {
            JsonValue::Null => JsonValue::Null,
            JsonValue::Bool(b) => JsonValue::Bool(*b),
            JsonValue::Int(n) => JsonValue::Int(*n),
            JsonValue::Decimal(s) => JsonValue::Decimal(s.clone()),
            JsonValue::Str(s) => JsonValue::Str(s.clone()),
            JsonValue::Arr(items) => {
                let n = items.len();
                let mut out: Vec<JsonValue> = Vec::new();
                let mut i: usize = 0;
                while i < n
                    invariant
                        n == items@.len(),
                        i <= n,
                        out@.len() == i,
                        forall|j: int|
                            0 <= j < i ==> json_view(#[trigger] out@[j]) == json_view(items@[j]),
                    decreases n - i,
                {
                    proof {
                        assert(decreases_to!(*self => items@[i as int]));
                    }
                    out.push(items[i].clone());
                    i = i + 1;
                }
                proof {
                    lemma_json_view_seq_pointwise(out@, items@);
                }
                JsonValue::Arr(out)
            },
            JsonValue::Obj(entries) => {
                let n = entries.len();
                let mut out: Vec<(String, JsonValue)> = Vec::new();
                let mut i: usize = 0;
                while i < n
                    invariant
                        n == entries@.len(),
                        i <= n,
                        out@.len() == i,
                        forall|j: int| 0 <= j < i ==> (#[trigger] out@[j]).0@ == entries@[j].0@,
                        forall|j: int|
                            0 <= j < i ==> json_view((#[trigger] out@[j]).1) == json_view(
                                entries@[j].1,
                            ),
                    decreases n - i,
                {
                    proof {
                        assert(decreases_to!(*self => entries@[i as int].1));
                    }
                    let entry = &entries[i];
                    out.push((entry.0.clone(), entry.1.clone()));
                    i = i + 1;
                }
                proof {
                    lemma_json_view_entries_pointwise(out@, entries@);
                }
                JsonValue::Obj(out)
            },
        }
    }
}

proof fn lemma_view_entries_skip(entries: Seq<(String, JsonValue)>, i: int)
    requires
        0 <= i < entries.len(),
    ensures
        json_view_entries(entries.skip(i)).drop_first() =~= json_view_entries(entries.skip(i + 1)),
{
    broadcast use lemma_json_view_entries_len, lemma_json_view_entries_index;

    assert(entries.skip(i).drop_first() =~= entries.skip(i + 1));
    let a = json_view_entries(entries.skip(i)).drop_first();
    let b = json_view_entries(entries.skip(i).drop_first());
    assert forall|j: int| 0 <= j < a.len() implies a[j] == b[j] by {
        assert(entries.skip(i).drop_first()[j] == entries.skip(i)[j + 1]);
    }
}

} // verus!
