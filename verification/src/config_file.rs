//! Arguments from the contents of a TOML configuration file.
//!
//! Each key of the file's top-level table becomes one `--key=value`
//! argument per scalar it holds: an array gives one argument per element,
//! nested arrays included, and a nested table gives none.

use vstd::prelude::*;
use crate::text::{signed_decimal, push_signed_decimal, has_prefix, signed_value, is_digit, lemma_signed_decimal_denotes, lemma_decimal_denotes};
use crate::config::front_is_well_formed;

verus! {

/// A TOML value, as far as configuration arguments read it.
pub enum TomlValue {
    String(String),
    Integer(i64),
    /// A float, carried as the text that its `Display` writes.
    Float(String),
    Boolean(bool),
    /// A date-time, carried as its TOML text.
    Datetime(String),
    Array(Vec<TomlValue>),
    /// A nested table; its contents give no arguments.
    Table,
}

/// The text of a boolean value.
pub open spec fn bool_text(b: bool) -> Seq<char> {
    if b {
        seq!['t', 'r', 'u', 'e']
    } else {
        seq!['f', 'a', 'l', 's', 'e']
    }
}

/// The `(key, text)` pairs that a value under `key` stands for.
pub open spec fn value_pairs(key: Seq<char>, value: TomlValue) -> Seq<(Seq<char>, Seq<char>)>
    decreases value,
{
    match value {
        TomlValue::String(s) => seq![(key, s@)],
        TomlValue::Integer(i) => seq![(key, signed_decimal(i as int))],
        TomlValue::Float(t) => seq![(key, t@)],
        TomlValue::Boolean(b) => seq![(key, bool_text(b))],
        TomlValue::Datetime(t) => seq![(key, t@)],
        TomlValue::Array(items) => items_pairs(key, items@),
        TomlValue::Table => Seq::empty(),
    }
}

/// The pairs of the elements of an array, element after element.
pub open spec fn items_pairs(key: Seq<char>, items: Seq<TomlValue>) -> Seq<(Seq<char>, Seq<char>)>
    decreases items,
{
    if items.len() == 0 {
        Seq::empty()
    } else {
        value_pairs(key, items[0]) + items_pairs(key, items.drop_first())
    }
}

/// The character views of a list of string pairs.
pub open spec fn pairs_view(pairs: Seq<(String, String)>) -> Seq<(Seq<char>, Seq<char>)> {
    pairs.map_values(|p: (String, String)| (p.0@, p.1@))
}

proof fn lemma_items_pairs_front(key: Seq<char>, items: Seq<TomlValue>)
    requires
        items.len() > 0,
    ensures
        items_pairs(key, items) == value_pairs(key, items[0]) + items_pairs(key, items.drop_first()),
{
}

/// The `(key, text)` pairs of one value: a scalar gives one pair, an array
/// the pairs of its elements in order, a nested table none.
pub fn convert_toml_value(key: String, value: TomlValue) -> (pairs: Vec<(String, String)>)
    ensures
        pairs_view(pairs@) == value_pairs(key@, value),
    decreases value,
{
    match value {
        TomlValue::String(s) => {
            let out = vec![(key, s)];
            assert(pairs_view(out@) =~= value_pairs(key@, value));
            out
        },
        TomlValue::Integer(i) => {
            let mut text = String::new();
            push_signed_decimal(&mut text, i);
            let out = vec![(key, text)];
            assert(pairs_view(out@) =~= value_pairs(key@, value));
            out
        },
        TomlValue::Float(t) => {
            let out = vec![(key, t)];
            assert(pairs_view(out@) =~= value_pairs(key@, value));
            out
        },
        TomlValue::Boolean(b) => {
            let text = if b { String::from_str("true") } else { String::from_str("false") };
            proof {
                reveal_strlit("true");
                reveal_strlit("false");
                assert("true"@ =~= bool_text(true));
                assert("false"@ =~= bool_text(false));
            }
            let out = vec![(key, text)];
            assert(pairs_view(out@) =~= value_pairs(key@, value));
            out
        },
        TomlValue::Datetime(t) => {
            let out = vec![(key, t)];
            assert(pairs_view(out@) =~= value_pairs(key@, value));
            out
        },
        TomlValue::Array(items) => {
            let ghost arr0 = items;
            let ghost all = items@;
            let mut items = items;
            let mut out: Vec<(String, String)> = Vec::new();
            assert(all.subrange(0, all.len() as int) =~= all);
            while items.len() > 0
                invariant
                    value == TomlValue::Array(arr0),
                    all == arr0@,
                    items@.len() <= all.len(),
                    items@ == all.subrange(all.len() - items@.len(), all.len() as int),
                    pairs_view(out@) + items_pairs(key@, items@) == items_pairs(key@, all),
                decreases items@.len(),
            {
                let ghost k = all.len() - items@.len();
                let ghost before = items@;
                proof {
                    lemma_items_pairs_front(key@, before);
                    assert(before[0] == all[k]);
                }
                let item = items.remove(0);
                proof {
                    assert(items@ =~= all.subrange(all.len() - items@.len(), all.len() as int));
                    assert(items@ =~= before.drop_first());
                    assert(decreases_to!(value => value->Array_0));
                    assert(value->Array_0 == arr0);
                    assert(decreases_to!(arr0 => arr0@));
                    assert(decreases_to!(all => all[k]));
                }
                let mut sub = convert_toml_value(key.clone(), item);
                let ghost out_before = pairs_view(out@);
                out.append(&mut sub);
                assert(pairs_view(out@) =~= out_before + value_pairs(key@, all[k]));
            }
            assert(items@ =~= Seq::<TomlValue>::empty());
            assert(pairs_view(out@) =~= items_pairs(key@, all));
            out
        },
        TomlValue::Table => {
            let out: Vec<(String, String)> = Vec::new();
            assert(pairs_view(out@) =~= value_pairs(key@, value));
            out
        },
    }
}

/// The pairs of a table's entries, entry after entry.
pub open spec fn table_pairs(entries: Seq<(Seq<char>, TomlValue)>) -> Seq<(Seq<char>, Seq<char>)>
    decreases entries.len(),
{
    if entries.len() == 0 {
        Seq::empty()
    } else {
        value_pairs(entries[0].0, entries[0].1) + table_pairs(entries.drop_first())
    }
}

/// The argument `--key=text` of one pair.
pub open spec fn option_text(pair: (Seq<char>, Seq<char>)) -> Seq<char> {
    seq!['-', '-'] + pair.0 + seq!['='] + pair.1
}

/// The arguments that a configuration file with these top-level entries
/// stands for.
pub open spec fn config_args(entries: Seq<(Seq<char>, TomlValue)>) -> Seq<Seq<char>> {
    table_pairs(entries).map_values(|p: (Seq<char>, Seq<char>)| option_text(p))
}

/// The character views of the keys of a table's entries.
pub open spec fn entries_view(entries: Seq<(String, TomlValue)>) -> Seq<(Seq<char>, TomlValue)> {
    entries.map_values(|p: (String, TomlValue)| (p.0@, p.1))
}

/// The arguments of a configuration file, given the entries of its
/// top-level table in the order in which the table holds them.
pub fn table_to_configs(table: Vec<(String, TomlValue)>) -> (configs: Vec<String>)
    ensures
        crate::config::strings_view(configs@) == config_args(entries_view(table@)),
{
    let ghost all = table@;
    let mut table = table;
    let mut configs: Vec<String> = Vec::new();
    proof {
        reveal_strlit("--");
        reveal_strlit("=");
        assert(all.subrange(0, all.len() as int) =~= all);
    }
    while table.len() > 0
        invariant
            table@.len() <= all.len(),
            table@ == all.subrange(all.len() - table@.len(), all.len() as int),
            crate::config::strings_view(configs@) + config_args(entries_view(table@)) == config_args(entries_view(all)),
            "--"@ == seq!['-', '-'],
            "="@ == seq!['='],
        decreases table@.len(),
    {
        let ghost before = table@;
        let (key, value) = table.remove(0);
        proof {
            assert(table@ =~= all.subrange(all.len() - table@.len(), all.len() as int));
            assert(table@ =~= before.drop_first());
        }
        let ghost key_view = key@;
        let pairs = convert_toml_value(key, value);
        let mut i: usize = 0;
        let ghost configs_before = crate::config::strings_view(configs@);
        while i < pairs.len()
            invariant
                i <= pairs@.len(),
                pairs_view(pairs@) == value_pairs(key_view, value),
                crate::config::strings_view(configs@) == configs_before
                    + pairs_view(pairs@).subrange(0, i as int).map_values(|p: (Seq<char>, Seq<char>)| option_text(p)),
                "--"@ == seq!['-', '-'],
                "="@ == seq!['='],
            decreases pairs@.len() - i,
        {
            let mut arg = String::from_str("--");
            arg.append(pairs[i].0.as_str());
            arg.append("=");
            arg.append(pairs[i].1.as_str());
            let ghost prev = crate::config::strings_view(configs@);
            configs.push(arg);
            proof {
                assert(arg@ =~= option_text(pairs_view(pairs@)[i as int]));
                assert(pairs_view(pairs@).subrange(0, i + 1).map_values(|p: (Seq<char>, Seq<char>)| option_text(p))
                    =~= pairs_view(pairs@).subrange(0, i as int).map_values(|p: (Seq<char>, Seq<char>)| option_text(p)).push(option_text(pairs_view(pairs@)[i as int])));
                assert(crate::config::strings_view(configs@) =~= prev.push(arg@));
            }
            i = i + 1;
        }
        proof {
            assert(pairs_view(pairs@).subrange(0, pairs@.len() as int) =~= pairs_view(pairs@));
            assert(before[0] == (key, value));
            let vb = entries_view(before);
            assert(vb[0] == (key_view, value));
            assert(vb.drop_first() =~= entries_view(table@));
            assert(table_pairs(vb) == value_pairs(key_view, value) + table_pairs(vb.drop_first()));
            assert(config_args(vb) =~= value_pairs(key_view, value).map_values(|p: (Seq<char>, Seq<char>)| option_text(p))
                + config_args(entries_view(table@)));
        }
    }
    assert(table@ =~= Seq::<(String, TomlValue)>::empty());
    assert(entries_view(table@) =~= Seq::<(Seq<char>, TomlValue)>::empty());
    assert(config_args(entries_view(table@)) =~= Seq::<Seq<char>>::empty());
    assert(crate::config::strings_view(configs@) =~= config_args(entries_view(all)));
    configs
}

/// Every argument that a configuration file stands for has the form
/// `--key=text`: it begins with `--` and holds an `=`, so an argument that
/// names a further configuration file always carries its path, and the
/// expander can step over any of them.
pub proof fn lemma_file_arguments_are_options(entries: Seq<(Seq<char>, TomlValue)>)
    ensures
        forall|i: int| 0 <= i < config_args(entries).len() ==> {
            let a = #[trigger] config_args(entries)[i];
            &&& has_prefix(a, seq!['-', '-'])
            &&& a.contains('=')
        },
        forall|rest: Seq<Seq<char>>, i: int| 0 <= i < config_args(entries).len() ==>
            front_is_well_formed(#[trigger] (config_args(entries).subrange(i, config_args(entries).len() as int) + rest)),
{
    let args = config_args(entries);
    assert forall|i: int| 0 <= i < args.len() implies {
        let a = #[trigger] args[i];
        &&& has_prefix(a, seq!['-', '-'])
        &&& a.contains('=')
    } by {
        let p = table_pairs(entries)[i];
        let a = args[i];
        assert(a == option_text(p));
        assert(a[2 + p.0.len() as int] == '=');
        assert(a.subrange(0, 2) =~= seq!['-', '-']);
    }
    assert forall|rest: Seq<Seq<char>>, i: int| 0 <= i < args.len() implies
        front_is_well_formed(#[trigger] (args.subrange(i, args.len() as int) + rest)) by {
        let p = table_pairs(entries)[i];
        assert((args.subrange(i, args.len() as int) + rest)[0] == args[i]);
        assert(args[i][2 + p.0.len() as int] == '=');
    }
}

proof fn lemma_table_pairs_concat(a: Seq<(Seq<char>, TomlValue)>, b: Seq<(Seq<char>, TomlValue)>)
    ensures
        table_pairs(a + b) == table_pairs(a) + table_pairs(b),
    decreases a.len(),
{
    if a.len() == 0 {
        assert(a + b =~= b);
    } else {
        assert((a + b).drop_first() =~= a.drop_first() + b);
        assert((a + b)[0] == a[0]);
        lemma_table_pairs_concat(a.drop_first(), b);
        assert(table_pairs(a + b) =~= table_pairs(a) + table_pairs(b));
    }
}

/// Entries contribute their arguments independently and in the table's
/// order: the arguments of two runs of entries are those of the first run
/// followed by those of the second.
pub proof fn lemma_config_args_concat(a: Seq<(Seq<char>, TomlValue)>, b: Seq<(Seq<char>, TomlValue)>)
    ensures
        config_args(a + b) == config_args(a) + config_args(b),
{
    lemma_table_pairs_concat(a, b);
    assert(config_args(a + b) =~= config_args(a) + config_args(b));
}

/// `toml::value::Value`, a value of a parsed TOML document.
#[verifier::external_type_specification]
#[verifier::external_body]
pub struct ExTomlValue(toml::value::Value);

/// What `toml::from_str::<toml::value::Table>` makes of a text: the entries
/// of the top-level table in the table's order, or `None` when the text does
/// not parse.
pub uninterp spec fn toml_table_entries(text: Seq<char>) -> Option<Seq<(Seq<char>, TomlValue)>>;

/// A TOML value as the library reads it: each variant of
/// `toml::value::Value` becomes its namesake, a float and a date-time their
/// `Display` text, an array its converted elements, and a table `Table`.
#[verifier::external_body]
fn library_value(value: toml::value::Value) -> TomlValue {
    match value {
        toml::value::Value::String(s) => TomlValue::String(s),
        toml::value::Value::Integer(v) => TomlValue::Integer(v),
        toml::value::Value::Float(v) => TomlValue::Float(v.to_string()),
        toml::value::Value::Boolean(v) => TomlValue::Boolean(v),
        toml::value::Value::Datetime(v) => TomlValue::Datetime(v.to_string()),
        toml::value::Value::Array(a) => TomlValue::Array(a.into_iter().map(library_value).collect()),
        toml::value::Value::Table(_) => TomlValue::Table,
    }
}

/// `toml::from_str::<toml::value::Table>(text)`: the entries of the text's
/// top-level table, in the table's order, or `None` when the text is not a
/// TOML document. Only the name `toml_table_entries` is claimed of them,
/// which depends on the text alone.
#[verifier::external_body]
fn parse_toml_table(text: &str) -> (entries: Option<Vec<(String, TomlValue)>>)
    ensures
        entries is Some == toml_table_entries(text@) is Some,
        entries matches Some(e) ==> toml_table_entries(text@) == Some(entries_view(e@)),
{
    match toml::from_str::<toml::value::Table>(text) {
        Ok(table) => Some(table.into_iter().map(|(k, v)| (k, library_value(v))).collect()),
        Err(_) => None,
    }
}

/// The arguments that a configuration file with the text `text` stands
/// for, or `None` when the text is not a TOML document.
pub fn toml_to_configs(text: &str) -> (configs: Option<Vec<String>>)
    ensures
        configs is Some == toml_table_entries(text@) is Some,
        configs matches Some(c) ==> crate::config::strings_view(c@) == config_args(toml_table_entries(text@)->0),
{
    match parse_toml_table(text) {
        Some(entries) => Some(table_to_configs(entries)),
        None => None,
    }
}

/// An integer value gives one pair, under its key, whose text is the
/// integer's decimal form: its digits, after a `-` exactly when it is
/// negative, denoting the integer itself.
pub proof fn lemma_integer_text_denotes_value(key: Seq<char>, i: i64)
    ensures
        value_pairs(key, TomlValue::Integer(i)).len() == 1,
        value_pairs(key, TomlValue::Integer(i))[0].0 == key,
        signed_value(value_pairs(key, TomlValue::Integer(i))[0].1) == i,
        ({
            let t = value_pairs(key, TomlValue::Integer(i))[0].1;
            &&& t.len() > 0
            &&& (t[0] == '-') == (i < 0)
            &&& forall|j: int| 0 < j < t.len() ==> is_digit(#[trigger] t[j])
            &&& i >= 0 ==> is_digit(t[0])
        }),
{
    lemma_signed_decimal_denotes(i as int);
    let t = signed_decimal(i as int);
    if i < 0 {
        lemma_decimal_denotes((-i) as nat);
    } else {
        lemma_decimal_denotes(i as nat);
    }
    assert(t.len() > 0);
    if i >= 0 {
        assert(is_digit(t[0]));
    }
}

/// Every argument of a file is its pair's key and text, verbatim: `--`, the
/// key, `=`, and then the text, so that what follows the key's `=` is the
/// value's text whatever it holds.
pub proof fn lemma_arguments_are_pairs_verbatim(entries: Seq<(Seq<char>, TomlValue)>)
    ensures
        config_args(entries).len() == table_pairs(entries).len(),
        forall|i: int| 0 <= i < config_args(entries).len() ==> {
            let (k, t) = table_pairs(entries)[i];
            let a = #[trigger] config_args(entries)[i];
            &&& a == seq!['-', '-'] + k + seq!['='] + t
            &&& a.subrange(0, 2) == seq!['-', '-']
            &&& a.subrange(2, 2 + k.len() as int) == k
            &&& a[2 + k.len() as int] == '='
            &&& a.subrange(3 + k.len() as int, a.len() as int) == t
        },
{
    let args = config_args(entries);
    assert forall|i: int| 0 <= i < args.len() implies {
        let (k, t) = table_pairs(entries)[i];
        let a = #[trigger] args[i];
        &&& a == seq!['-', '-'] + k + seq!['='] + t
        &&& a.subrange(0, 2) == seq!['-', '-']
        &&& a.subrange(2, 2 + k.len() as int) == k
        &&& a[2 + k.len() as int] == '='
        &&& a.subrange(3 + k.len() as int, a.len() as int) == t
    } by {
        let (k, t) = table_pairs(entries)[i];
        let a = args[i];
        assert(a == seq!['-', '-'] + k + seq!['='] + t);
        assert(a.subrange(0, 2) =~= seq!['-', '-']);
        assert(a.subrange(2, 2 + k.len() as int) =~= k);
        assert(a.subrange(3 + k.len() as int, a.len() as int) =~= t);
    }
}

/// A file entry `key = "text"` gives exactly the one argument
/// `--key=text`, the string's characters unchanged.
pub proof fn lemma_string_entry_gives_verbatim_option(key: Seq<char>, text: String)
    ensures
        config_args(seq![(key, TomlValue::String(text))])
            == seq![seq!['-', '-'] + key + seq!['='] + text@],
{
    let e = seq![(key, TomlValue::String(text))];
    assert(e.drop_first() =~= Seq::<(Seq<char>, TomlValue)>::empty());
    assert(table_pairs(e.drop_first()) =~= Seq::<(Seq<char>, Seq<char>)>::empty());
    assert(table_pairs(e) =~= seq![(key, text@)]);
    assert(config_args(e) =~= seq![seq!['-', '-'] + key + seq!['='] + text@]);
}

/// A scalar value gives exactly one pair under its key: a string, a float
/// or a date-time its text unchanged, a boolean `true` or `false`; a nested
/// table gives no pair.
pub proof fn lemma_scalar_values_give_their_text(key: Seq<char>, value: TomlValue)
    ensures
        value matches TomlValue::String(s) ==> value_pairs(key, value) == seq![(key, s@)],
        value matches TomlValue::Float(t) ==> value_pairs(key, value) == seq![(key, t@)],
        value matches TomlValue::Datetime(t) ==> value_pairs(key, value) == seq![(key, t@)],
        value == TomlValue::Boolean(true) ==> value_pairs(key, value) == seq![(key, seq!['t', 'r', 'u', 'e'])],
        value == TomlValue::Boolean(false) ==> value_pairs(key, value) == seq![(key, seq!['f', 'a', 'l', 's', 'e'])],
        value == TomlValue::Table ==> value_pairs(key, value).len() == 0,
{
}

/// Arrays are flattened element after element: the pairs of a run of
/// elements are those of its first part followed by those of the rest, and
/// a single element gives its own pairs.
pub proof fn lemma_array_pairs_flatten(key: Seq<char>, xs: Seq<TomlValue>, ys: Seq<TomlValue>)
    ensures
        items_pairs(key, xs + ys) == items_pairs(key, xs) + items_pairs(key, ys),
        forall|x: TomlValue| items_pairs(key, seq![x]) == value_pairs(key, x),
    decreases xs.len(),
{
    if xs.len() == 0 {
        assert(xs + ys =~= ys);
    } else {
        assert((xs + ys).drop_first() =~= xs.drop_first() + ys);
        assert((xs + ys)[0] == xs[0]);
        lemma_array_pairs_flatten(key, xs.drop_first(), ys);
        assert(items_pairs(key, xs + ys) =~= items_pairs(key, xs) + items_pairs(key, ys));
    }
    assert forall|x: TomlValue| items_pairs(key, seq![x]) == value_pairs(key, x) by {
        let one = seq![x];
        assert(one.drop_first() =~= Seq::<TomlValue>::empty());
        assert(one[0] == x);
        assert(items_pairs(key, one.drop_first()) =~= Seq::<(Seq<char>, Seq<char>)>::empty());
        assert(items_pairs(key, one) == value_pairs(key, one[0]) + items_pairs(key, one.drop_first()));
        assert(items_pairs(key, one) =~= value_pairs(key, x));
    }
}

} // verus!
