//! The round trip: the text of a document reads back as the same document.
use crate::deserializer::{
    expect, parse_document, parse_entries, parse_entry, parse_items, parse_macro,
    parse_macro_args, parse_property, parse_value,
};
use crate::document::{
    bind_args, first_fit, lemma_first_fit, strings_view, AeonDocument, DocView, MacroView,
};
use crate::error::Failure;
use crate::lexer::next_token;
use crate::lexer_laws::{
    ends_number, ends_word, lemma_token_after_blank, lemma_token_after_spaces,
    lemma_token_double, lemma_token_identifier, lemma_token_integer, lemma_token_keyword,
    lemma_token_punctuation, lemma_token_string,
};
use crate::parse_laws::{lemma_parse_entry_rest, lemma_parse_value_rest};
use crate::serialized;
use crate::serializer::{
    args_text, body_text, call_text, document_text, entries_text, escape, has_list,
    is_valid_identifier,
    items_text, key_text, list_text, macro_text, macros_text, map_text, names_text,
    properties_text, property_text, valid_identifier, value_text,
};
use crate::text::{spaces, spec_is_whitespace, to_chars};
use crate::token::TokenView;
use crate::value::{
    distinct_keys, entries_view, find_key, lemma_find_key, lemma_find_key_first,
    lemma_find_key_none, lemma_list_wf, lemma_object_wf, upsert, values_view, AeonMap, AeonValue,
    ValueView,
};
use vstd::prelude::*;
use vstd::relations::injective_on;
use vstd::set_lib::{lemma_int_range, lemma_map_size, lemma_subset_equality, set_int_range};

verus! {

/// Whether two values are the same up to the order of the entries of their
/// objects: lists agree item by item; objects have as many entries and the
/// same keys, each bound to the same value.
pub open spec fn same(a: ValueView, b: ValueView) -> bool
    decreases a,
{
    match a {
        ValueView::List(x) => b matches ValueView::List(y) && x.len() == y.len() && forall|
            i: int,
        |
            0 <= i < x.len() ==> same(#[trigger] x[i], y[i]),
        ValueView::Object(x) => {
            &&& b matches ValueView::Object(y)
            &&& x.len() == y.len()
            &&& forall|i: int| 0 <= i < x.len() ==> find_key(y, (#[trigger] x[i]).0) is Some
            &&& forall|j: int|
                0 <= j < y.len() ==> match find_key(x, (#[trigger] y[j]).0) {
                    Some(k) => 0 <= k < x.len() && same(x[k].1, y[j].1),
                    None => false,
                }
        },
        _ => a == b,
    }
}

/// The index at which `entries` holds the argument name at index `j`.
pub open spec fn place_of(entries: Seq<(Seq<char>, ValueView)>, args: Seq<Seq<char>>) -> spec_fn(
    int,
) -> int {
    |j: int| find_key(entries, args[j]).unwrap()
}

/// A macro that fits an object names every key of it: as many distinct
/// argument names as distinct keys, each name a key, leave no key over.
pub proof fn lemma_fits_covers(entries: Seq<(Seq<char>, ValueView)>, args: Seq<Seq<char>>, i: int)
    requires
        distinct_keys(entries),
        forall|a: int, b: int| 0 <= a < b < args.len() ==> #[trigger] args[a] != #[trigger] args[b],
        args.len() == entries.len(),
        forall|j: int| 0 <= j < args.len() ==> find_key(entries, #[trigger] args[j]) is Some,
        0 <= i < entries.len(),
    ensures
        exists|j: int| 0 <= j < args.len() && #[trigger] args[j] == entries[i].0,
{
    let n = args.len() as int;
    let f = place_of(entries, args);
    let domain = set_int_range(0, n);
    lemma_int_range(0, n);
    assert forall|a: int, b: int|
        domain.contains(a) && domain.contains(b) && #[trigger] f(a) == #[trigger] f(b) implies a
        == b by {
        lemma_find_key(entries, args[a]);
        lemma_find_key(entries, args[b]);
        if a < b {
            assert(args[a] != args[b]);
        } else if b < a {
            assert(args[b] != args[a]);
        }
    }
    assert(injective_on(f, domain));
    let image = domain.map(f);
    lemma_map_size(domain, image, f);
    assert forall|k: int| image.contains(k) implies domain.contains(k) by {
        let j = choose|j: int| domain.contains(j) && k == f(j);
        lemma_find_key(entries, args[j]);
    }
    assert(image.subset_of(domain));
    lemma_subset_equality(image, domain);
    assert(domain.contains(i));
    assert(image.contains(i));
    let j = choose|j: int| domain.contains(j) && i == f(j);
    lemma_find_key(entries, args[j]);
    assert(args[j] == entries[i].0);
}

/// The items of a well-formed list are well formed.
pub proof fn lemma_item_wf(items: Seq<ValueView>, i: int)
    requires
        ValueView::List(items).wf(),
        0 <= i < items.len(),
    ensures
        items[i].wf(),
{
    lemma_list_wf(items);
}

/// The entries of a well-formed object have well-formed values and keys no
/// two of which are the same.
pub proof fn lemma_entry_wf(entries: Seq<(Seq<char>, ValueView)>, i: int)
    requires
        ValueView::Object(entries).wf(),
        0 <= i < entries.len(),
    ensures
        entries[i].1.wf(),
        distinct_keys(entries),
{
    lemma_object_wf(entries);
}

/// Whether the macros can be looked up by the names that the serializer
/// writes: each is registered under its own name, which is an identifier;
/// no name occurs twice, and no macro has an argument name twice.
pub open spec fn callable(macros: Seq<(Seq<char>, MacroView)>) -> bool {
    &&& distinct_keys(macros)
    &&& forall|i: int|
        0 <= i < macros.len() ==> {
            &&& (#[trigger] macros[i]).0 == macros[i].1.name
            &&& valid_identifier(macros[i].1.name)
            &&& macros[i].1.distinct_args()
        }
}

/// Whether a value that stands before `t` ends there.
pub open spec fn ends_value(t: Seq<char>) -> bool {
    ends_word(t) && ends_number(t)
}

/// The value at the start of the input, and what is left behind it.
pub open spec fn read_value(input: Seq<char>, macros: Seq<(Seq<char>, MacroView)>) -> Result<
    (ValueView, Seq<char>),
    Failure,
> {
    match next_token(input) {
        Err(e) => Err(e),
        Ok(None) => Err(crate::deserializer::overrun()),
        Ok(Some((token, rest))) => parse_value(rest, token, macros),
    }
}

/// Whether reading a value from the input gives a value that is the same
/// as `v` and leaves `t`.
pub open spec fn reads(
    input: Seq<char>,
    macros: Seq<(Seq<char>, MacroView)>,
    v: ValueView,
    t: Seq<char>,
) -> bool {
    match read_value(input, macros) {
        Ok((w, rest)) => rest == t && same(v, w),
        Err(_) => false,
    }
}

/// Binding distinct argument names adds one entry for each, in order.
pub proof fn lemma_bind_args(args: Seq<Seq<char>>, values: Seq<ValueView>, n: nat)
    requires
        n <= args.len(),
        forall|i: int, j: int| 0 <= i < j < args.len() ==> #[trigger] args[i] != #[trigger] args[j],
    ensures
        bind_args(args, values, n).len() == n,
        forall|i: int|
            0 <= i < n ==> #[trigger] bind_args(args, values, n)[i] == (args[i], values[i]),
    decreases n,
{
    if n > 0 {
        lemma_bind_args(args, values, (n - 1) as nat);
        let before = bind_args(args, values, (n - 1) as nat);
        assert forall|j: int| 0 <= j < before.len() implies (#[trigger] before[j]).0 != args[n
            - 1] by {
            assert(before[j] == (args[j], values[j]));
        }
        lemma_find_key_none(before, args[n - 1]);
    }
}

/// What follows the item before index `j` in a list's text, up to the end
/// of the input: the further items, the closing bracket on a line of its
/// own, and `t`.
pub open spec fn list_tail(
    items: Seq<ValueView>,
    macros: Seq<(Seq<char>, MacroView)>,
    indent: nat,
    outer: nat,
    j: nat,
    t: Seq<char>,
) -> Seq<char> {
    items_text(items, macros, indent, j) + seq!['\n'] + spaces(outer) + seq![']'] + t
}

/// What follows the argument before index `j` in a macro call's text, up to
/// the end of the input.
pub open spec fn call_tail(
    entries: Seq<(Seq<char>, ValueView)>,
    args: Seq<Seq<char>>,
    macros: Seq<(Seq<char>, MacroView)>,
    indent: nat,
    lines: bool,
    outer: nat,
    j: nat,
    t: Seq<char>,
) -> Seq<char> {
    args_text(entries, args, macros, indent, lines, j) + (if lines {
        seq!['\n'] + spaces(outer)
    } else {
        Seq::empty()
    }) + seq![')'] + t
}

/// What follows the entry before index `j` in a brace map's text, up to the
/// end of the input.
pub open spec fn map_tail(
    entries: Seq<(Seq<char>, ValueView)>,
    macros: Seq<(Seq<char>, MacroView)>,
    indent: nat,
    j: nat,
    t: Seq<char>,
) -> Seq<char> {
    entries_text(entries, macros, indent, j) + seq!['\n'] + spaces(indent) + seq!['}'] + t
}

/// The value bound to the argument name at index `i`.
pub open spec fn argument(entries: Seq<(Seq<char>, ValueView)>, args: Seq<Seq<char>>, i: int)
    -> ValueView {
    entries[find_key(entries, args[i]).unwrap()].1
}

/// Reading a value's text gives the value back.
pub proof fn lemma_read_value(
    v: ValueView,
    macros: Seq<(Seq<char>, MacroView)>,
    indent: nat,
    skip: bool,
    t: Seq<char>,
)
    requires
        v.wf(),
        callable(macros),
        ends_value(t),
    ensures
        reads(value_text(v, macros, indent, skip) + t, macros, v, t),
    decreases v, 1nat, 0nat,
{
    lemma_read_body(v, macros, indent, t);
    let body = body_text(v, macros, indent);
    if skip {
        assert(value_text(v, macros, indent, skip) + t == body + t);
    } else {
        lemma_token_after_spaces(indent, body + t);
        assert(value_text(v, macros, indent, skip) + t == spaces(indent) + (body + t));
    }
}

/// Reading a value's text, without indentation before it, gives the value
/// back.
pub proof fn lemma_read_body(
    v: ValueView,
    macros: Seq<(Seq<char>, MacroView)>,
    indent: nat,
    t: Seq<char>,
)
    requires
        v.wf(),
        callable(macros),
        ends_value(t),
    ensures
        reads(body_text(v, macros, indent) + t, macros, v, t),
    decreases v, 0nat, 0nat,
{
    let body = body_text(v, macros, indent);
    match v {
        ValueView::Nil => {
            lemma_token_keyword(t);
        },
        ValueView::Bool(b) => {
            lemma_token_keyword(t);
        },
        ValueView::String(s) => {
            lemma_token_string(s, t);
        },
        ValueView::Integer(i) => {
            lemma_token_integer(i, t);
        },
        ValueView::Double(text) => {
            lemma_token_double(text, t);
        },
        ValueView::List(items) => {
            lemma_read_list(items, macros, indent, t);
        },
        ValueView::Object(entries) => {
            lemma_first_fit(macros, entries);
            match first_fit(macros, entries) {
                Some(k) => {
                    lemma_read_call(entries, k, macros, indent, t);
                },
                None => {
                    lemma_read_map(entries, macros, indent, t);
                },
            }
        },
    }
}

/// Reading a list's text gives the list back.
pub proof fn lemma_read_list(
    items: Seq<ValueView>,
    macros: Seq<(Seq<char>, MacroView)>,
    indent: nat,
    t: Seq<char>,
)
    requires
        ValueView::List(items).wf(),
        callable(macros),
        ends_value(t),
    ensures
        reads(list_text(items, macros, indent) + t, macros, ValueView::List(items), t),
    decreases items, 1nat, 0nat,
{
    let empty = Seq::<ValueView>::empty();
    if items.len() == 0 {
        let r = seq![']'] + t;
        assert(list_text(items, macros, indent) + t == seq!['['] + r);
        lemma_token_punctuation('[', r);
        lemma_token_punctuation(']', t);
        assert(parse_items(r, macros, None, empty) == Ok::<_, Failure>((empty, t)));
        assert(same(ValueView::List(items), ValueView::List(empty)));
    } else {
        let r = seq!['\n'] + value_text(items[0], macros, indent + 4, false) + list_tail(
            items,
            macros,
            indent + 4,
            indent,
            1,
            t,
        );
        assert(list_text(items, macros, indent) + t == seq!['['] + r);
        lemma_token_punctuation('[', r);
        lemma_read_items(items, macros, indent + 4, indent, 0, empty, t);
        match parse_items(r, macros, None, empty) {
            Ok((vals, rest)) => {
                assert forall|i: int| 0 <= i < items.len() implies same(
                    #[trigger] items[i],
                    vals[i],
                ) by {}
                assert(same(ValueView::List(items), ValueView::List(vals)));
            },
            Err(_) => {},
        }
    }
}

/// Reading a list's items from index `i` on gives them back.
pub proof fn lemma_read_items(
    items: Seq<ValueView>,
    macros: Seq<(Seq<char>, MacroView)>,
    indent: nat,
    outer: nat,
    i: nat,
    values: Seq<ValueView>,
    t: Seq<char>,
)
    requires
        i < items.len(),
        ValueView::List(items).wf(),
        callable(macros),
        ends_value(t),
    ensures
        match parse_items(
            seq!['\n'] + value_text(items[i as int], macros, indent, false) + list_tail(
                items,
                macros,
                indent,
                outer,
                i + 1,
                t,
            ),
            macros,
            None,
            values,
        ) {
            Ok((vals, rest)) => {
                &&& rest == t
                &&& vals.len() == values.len() + items.len() - i
                &&& forall|j: int| 0 <= j < values.len() ==> vals[j] == values[j]
                &&& forall|j: int|
                    i <= j < items.len() ==> same(#[trigger] items[j], vals[values.len() + j - i])
            },
            Err(_) => false,
        },
    decreases items, 0nat, items.len() - i,
{
    let tail = list_tail(items, macros, indent, outer, i + 1, t);
    let x = value_text(items[i as int], macros, indent, false) + tail;
    let input = seq!['\n'] + value_text(items[i as int], macros, indent, false) + tail;
    assert(input == seq!['\n'] + x);
    lemma_token_after_blank('\n', x);
    assert(tail.len() > 0 && (tail[0] == ',' || tail[0] == '\n'));
    lemma_item_wf(items, i as int);
    lemma_read_value(items[i as int], macros, indent, false, tail);
    match next_token(x) {
        Ok(Some((token, r))) => {
            lemma_parse_value_rest(r, token, macros);
            match parse_value(r, token, macros) {
                Ok((w, rest2)) => {
                    let pushed = values.push(w);
                    if i + 1 < items.len() {
                        let z = seq!['\n'] + value_text(
                            items[(i + 1) as int],
                            macros,
                            indent,
                            false,
                        ) + list_tail(items, macros, indent, outer, i + 2, t);
                        assert(tail == seq![','] + z);
                        lemma_token_punctuation(',', z);
                        lemma_read_items(items, macros, indent, outer, i + 1, pushed, t);
                        match parse_items(z, macros, None, pushed) {
                            Ok((vals, rest)) => {
                                assert(vals[values.len() as int] == pushed[values.len() as int]);
                                assert forall|j: int| 0 <= j < values.len() implies vals[j]
                                    == values[j] by {
                                    assert(vals[j] == pushed[j]);
                                }
                                assert forall|j: int| i <= j < items.len() implies same(
                                    #[trigger] items[j],
                                    vals[values.len() + j - i],
                                ) by {
                                    if j > i {
                                        assert(same(items[j], vals[pushed.len() + j - (i + 1)]));
                                    }
                                }
                            },
                            Err(_) => {},
                        }
                    } else {
                        let close = seq![']'] + t;
                        assert(tail == seq!['\n'] + (spaces(outer) + close));
                        lemma_token_after_blank('\n', spaces(outer) + close);
                        lemma_token_after_spaces(outer, close);
                        lemma_token_punctuation(']', t);
                    }
                },
                Err(_) => {},
            }
        },
        _ => {},
    }
}

/// Reading a macro call's text gives the object back.
pub proof fn lemma_read_call(
    entries: Seq<(Seq<char>, ValueView)>,
    k: int,
    macros: Seq<(Seq<char>, MacroView)>,
    indent: nat,
    t: Seq<char>,
)
    requires
        ValueView::Object(entries).wf(),
        callable(macros),
        ends_value(t),
        0 <= k < macros.len(),
        macros[k].1.fits(entries),
    ensures
        reads(
            call_text(entries, macros[k].1, macros, indent) + t,
            macros,
            ValueView::Object(entries),
            t,
        ),
    decreases entries, 1nat, 0nat,
{
    let mac = macros[k].1;
    let name = mac.name;
    let args = mac.args;
    let lines = has_list(entries);
    let empty = Seq::<ValueView>::empty();
    let r = call_tail(entries, args, macros, indent + 4, lines, indent, 0, t);
    assert(call_text(entries, mac, macros, indent) + t == name + (seq!['('] + r));
    lemma_token_identifier(name, seq!['('] + r);
    lemma_token_punctuation('(', r);
    assert(expect(seq!['('] + r, TokenView::LeftParenthesis) == Ok::<_, Failure>(r));
    assert forall|j: int| 0 <= j < k implies (#[trigger] macros[j]).0 != name by {}
    lemma_find_key_first(macros, name, k);
    if args.len() == 0 {
        assert(r == seq![')'] + t) by {
            assert(!lines);
        }
        lemma_token_punctuation(')', t);
        assert(parse_items(r, macros, Some(name), empty) == Ok::<_, Failure>((empty, t)));
        assert(same(ValueView::Object(entries), ValueView::Object(bind_args(args, empty, 0))));
    } else {
        assert(find_key(entries, args[0]) is Some);
        lemma_find_key(entries, args[0]);
        let first = value_text(argument(entries, args, 0), macros, indent + 4, true)
            + call_tail(entries, args, macros, indent + 4, lines, indent, 1, t);
        assert(r == first);
        assert(Seq::<char>::empty() + first == first);
        lemma_read_args(entries, args, macros, indent + 4, lines, indent, 0, empty, name, t);
        match parse_items(r, macros, Some(name), empty) {
            Ok((vals, rest)) => {
                lemma_bind_args(args, vals, args.len());
                let bound = bind_args(args, vals, args.len());
                assert forall|j: int| 0 <= j < bound.len() implies match find_key(
                    entries,
                    (#[trigger] bound[j]).0,
                ) {
                    Some(at) => 0 <= at < entries.len() && same(entries[at].1, bound[j].1),
                    None => false,
                } by {
                    assert(bound[j] == (args[j], vals[j]));
                    assert(find_key(entries, args[j]) is Some);
                    lemma_find_key(entries, args[j]);
                    assert(same(argument(entries, args, j), vals[j]));
                }
                lemma_entry_wf(entries, 0);
                assert forall|i: int| 0 <= i < entries.len() implies find_key(
                    bound,
                    (#[trigger] entries[i]).0,
                ) is Some by {
                    lemma_fits_covers(entries, args, i);
                    let j = choose|j: int| 0 <= j < args.len() && #[trigger] args[j] == entries[i].0;
                    assert(bound[j] == (args[j], vals[j]));
                    lemma_find_key(bound, entries[i].0);
                }
                assert(same(ValueView::Object(entries), ValueView::Object(bound)));
            },
            Err(_) => {},
        }
    }
}

/// The white space between the comma behind an argument and the next
/// argument.
pub open spec fn gap(lines: bool, i: nat) -> Seq<char> {
    if i == 0 {
        Seq::empty()
    } else if lines {
        seq!['\n']
    } else {
        seq![' ']
    }
}

/// Reading a macro call's arguments from index `i` on gives them back.
#[verifier::rlimit(40)]
pub proof fn lemma_read_args(
    entries: Seq<(Seq<char>, ValueView)>,
    args: Seq<Seq<char>>,
    macros: Seq<(Seq<char>, MacroView)>,
    indent: nat,
    lines: bool,
    outer: nat,
    i: nat,
    values: Seq<ValueView>,
    name: Seq<char>,
    t: Seq<char>,
)
    requires
        i < args.len(),
        ValueView::Object(entries).wf(),
        forall|j: int| 0 <= j < args.len() ==> find_key(entries, #[trigger] args[j]) is Some,
        callable(macros),
        ends_value(t),
    ensures
        match parse_items(
            gap(lines, i) + value_text(
                argument(entries, args, i as int),
                macros,
                indent,
                !lines || i == 0,
            ) + call_tail(entries, args, macros, indent, lines, outer, i + 1, t),
            macros,
            Some(name),
            values,
        ) {
            Ok((vals, rest)) => {
                &&& rest == t
                &&& vals.len() == values.len() + args.len() - i
                &&& forall|j: int| 0 <= j < values.len() ==> vals[j] == values[j]
                &&& forall|j: int|
                    i <= j < args.len() ==> same(
                        #[trigger] argument(entries, args, j),
                        vals[values.len() + j - i],
                    )
            },
            Err(_) => false,
        },
    decreases entries, 0nat, args.len() - i,
{
    let tail = call_tail(entries, args, macros, indent, lines, outer, i + 1, t);
    let v = argument(entries, args, i as int);
    assert(find_key(entries, args[i as int]) is Some);
    lemma_find_key(entries, args[i as int]);
    lemma_entry_wf(entries, find_key(entries, args[i as int]).unwrap());
    let x = value_text(v, macros, indent, !lines || i == 0) + tail;
    let input = gap(lines, i) + value_text(v, macros, indent, !lines || i == 0) + tail;
    assert(input == gap(lines, i) + x);
    if i == 0 {
        assert(input == x);
    } else if lines {
        lemma_token_after_blank('\n', x);
    } else {
        lemma_token_after_blank(' ', x);
    }
    assert(next_token(input) == next_token(x));
    if i + 1 < args.len() {
        assert(find_key(entries, args[(i + 1) as int]) is Some);
        lemma_find_key(entries, args[(i + 1) as int]);
    }
    assert(tail.len() > 0 && (tail[0] == ',' || tail[0] == '\n' || tail[0] == ')'));
    lemma_read_value(v, macros, indent, !lines || i == 0, tail);
    match next_token(x) {
        Ok(Some((token, r))) => {
            lemma_parse_value_rest(r, token, macros);
            match parse_value(r, token, macros) {
                Ok((w, rest2)) => {
                    let pushed = values.push(w);
                    if i + 1 < args.len() {
                        let z = gap(lines, i + 1) + value_text(
                            argument(entries, args, (i + 1) as int),
                            macros,
                            indent,
                            !lines || i + 1 == 0,
                        ) + call_tail(entries, args, macros, indent, lines, outer, i + 2, t);
                        assert(tail == seq![','] + z);
                        lemma_token_punctuation(',', z);
                        lemma_read_args(
                            entries,
                            args,
                            macros,
                            indent,
                            lines,
                            outer,
                            i + 1,
                            pushed,
                            name,
                            t,
                        );
                        match parse_items(z, macros, Some(name), pushed) {
                            Ok((vals, rest)) => {
                                assert(vals[values.len() as int] == pushed[values.len() as int]);
                                assert forall|j: int| 0 <= j < values.len() implies vals[j]
                                    == values[j] by {
                                    assert(vals[j] == pushed[j]);
                                }
                                assert forall|j: int| i <= j < args.len() implies same(
                                    #[trigger] argument(entries, args, j),
                                    vals[values.len() + j - i],
                                ) by {
                                    if j > i {
                                        assert(same(
                                            argument(entries, args, j),
                                            vals[pushed.len() + j - (i + 1)],
                                        ));
                                    }
                                }
                            },
                            Err(_) => {},
                        }
                    } else {
                        let close = seq![')'] + t;
                        if lines {
                            assert(tail == seq!['\n'] + (spaces(outer) + close));
                            lemma_token_after_blank('\n', spaces(outer) + close);
                            lemma_token_after_spaces(outer, close);
                        } else {
                            assert(tail == close);
                        }
                        lemma_token_punctuation(')', t);
                    }
                },
                Err(_) => {},
            }
        },
        _ => {},
    }
}

/// Reading a brace map's text gives the object back, entry by entry.
pub proof fn lemma_read_map(
    entries: Seq<(Seq<char>, ValueView)>,
    macros: Seq<(Seq<char>, MacroView)>,
    indent: nat,
    t: Seq<char>,
)
    requires
        ValueView::Object(entries).wf(),
        callable(macros),
        ends_value(t),
    ensures
        reads(map_text(entries, macros, indent) + t, macros, ValueView::Object(entries), t),
    decreases entries, 1nat, 0nat,
{
    let empty = Seq::<(Seq<char>, ValueView)>::empty();
    if entries.len() == 0 {
        let r = seq!['}'] + t;
        assert(map_text(entries, macros, indent) + t == seq!['{'] + r);
        lemma_token_punctuation('{', r);
        lemma_token_punctuation('}', t);
        assert(parse_entries(r, macros, empty) == Ok::<_, Failure>((empty, t)));
        assert(same(ValueView::Object(entries), ValueView::Object(empty)));
    } else {
        let r = seq!['\n'] + key_text(entries[0].0) + seq![':', ' '] + value_text(
            entries[0].1,
            macros,
            indent,
            true,
        ) + map_tail(entries, macros, indent, 1, t);
        assert(map_text(entries, macros, indent) + t == seq!['{'] + r);
        lemma_token_punctuation('{', r);
        assert(Seq::<char>::empty() + r == r);
        lemma_read_entries(entries, macros, indent, 0, empty, t);
        match parse_entries(r, macros, empty) {
            Ok((read, rest)) => {
                assert forall|j: int| 0 <= j < read.len() implies match find_key(
                    entries,
                    (#[trigger] read[j]).0,
                ) {
                    Some(at) => 0 <= at < entries.len() && same(entries[at].1, read[j].1),
                    None => false,
                } by {
                    assert(read[j].0 == entries[j].0);
                    assert forall|a: int| 0 <= a < j implies (#[trigger] entries[a]).0
                        != entries[j].0 by {}
                    lemma_find_key_first(entries, entries[j].0, j);
                }
                assert forall|i: int| 0 <= i < entries.len() implies find_key(
                    read,
                    (#[trigger] entries[i]).0,
                ) is Some by {
                    assert(read[i].0 == entries[i].0);
                    lemma_find_key(read, entries[i].0);
                }
                assert(same(ValueView::Object(entries), ValueView::Object(read)));
            },
            Err(_) => {},
        }
    }
}

/// The white space between the comma behind an entry and the line of the
/// next entry.
pub open spec fn entry_gap(i: nat) -> Seq<char> {
    if i == 0 {
        Seq::empty()
    } else {
        seq![' ']
    }
}

/// Reading a brace map's entries from index `i` on gives them back, in
/// order.
#[verifier::rlimit(40)]
pub proof fn lemma_read_entries(
    entries: Seq<(Seq<char>, ValueView)>,
    macros: Seq<(Seq<char>, MacroView)>,
    indent: nat,
    i: nat,
    read: Seq<(Seq<char>, ValueView)>,
    t: Seq<char>,
)
    requires
        i < entries.len(),
        ValueView::Object(entries).wf(),
        callable(macros),
        ends_value(t),
        read.len() == i,
        forall|j: int| 0 <= j < i ==> (#[trigger] read[j]).0 == entries[j].0,
        forall|j: int| 0 <= j < i ==> same(entries[j].1, (#[trigger] read[j]).1),
    ensures
        match parse_entries(
            entry_gap(i) + seq!['\n'] + key_text(entries[i as int].0) + seq![':', ' ']
                + value_text(entries[i as int].1, macros, indent, true) + map_tail(
                entries,
                macros,
                indent,
                i + 1,
                t,
            ),
            macros,
            read,
        ) {
            Ok((all, rest)) => {
                &&& rest == t
                &&& all.len() == entries.len()
                &&& forall|j: int| 0 <= j < all.len() ==> (#[trigger] all[j]).0 == entries[j].0
                &&& forall|j: int| 0 <= j < all.len() ==> same(entries[j].1, (#[trigger] all[j]).1)
            },
            Err(_) => false,
        },
    decreases entries, 0nat, entries.len() - i,
{
    let key = entries[i as int].0;
    let v = entries[i as int].1;
    let tail = map_tail(entries, macros, indent, i + 1, t);
    lemma_entry_wf(entries, i as int);
    let x = value_text(v, macros, indent, true) + tail;
    let after_key = seq![':'] + (seq![' '] + x);
    let line = key_text(key) + after_key;
    let input = entry_gap(i) + seq!['\n'] + key_text(key) + seq![':', ' '] + value_text(
        v,
        macros,
        indent,
        true,
    ) + tail;
    assert(input == entry_gap(i) + (seq!['\n'] + line));
    lemma_token_after_blank('\n', line);
    if i > 0 {
        lemma_token_after_blank(' ', seq!['\n'] + line);
    } else {
        assert(input == seq!['\n'] + line);
    }
    assert(next_token(input) == next_token(line));
    if valid_identifier(key) {
        lemma_token_identifier(key, after_key);
    } else {
        assert(line == seq!['"'] + escape(key) + seq!['"'] + after_key);
        lemma_token_string(key, after_key);
    }
    lemma_token_punctuation(':', seq![' '] + x);
    lemma_token_after_blank(' ', x);
    assert(tail.len() > 0 && (tail[0] == ',' || tail[0] == '\n'));
    lemma_read_value(v, macros, indent, true, tail);
    lemma_parse_entry_rest(after_key, key, macros);
    match next_token(x) {
        Ok(Some((token, r))) => {
            match parse_value(r, token, macros) {
                Ok((w, rest2)) => {
                    assert(parse_entry(after_key, key, macros) == Ok::<_, Failure>((w, tail)));
                    assert forall|j: int| 0 <= j < read.len() implies (#[trigger] read[j]).0
                        != key by {
                        assert(entries[j].0 != entries[i as int].0);
                    }
                    lemma_find_key_none(read, key);
                    let pushed = read.push((key, w));
                    assert(upsert(read, key, w) == pushed);
                    if i + 1 < entries.len() {
                        let z = entry_gap(i + 1) + seq!['\n'] + key_text(entries[(i + 1) as int].0)
                            + seq![':', ' '] + value_text(entries[(i + 1) as int].1, macros, indent, true)
                            + map_tail(entries, macros, indent, i + 2, t);
                        assert(tail == seq![','] + z);
                        lemma_token_punctuation(',', z);
                        assert forall|j: int| 0 <= j < i + 1 implies (#[trigger] pushed[j]).0
                            == entries[j].0 by {
                            if j < i {
                                assert(pushed[j] == read[j]);
                            }
                        }
                        assert forall|j: int| 0 <= j < i + 1 implies same(
                            entries[j].1,
                            (#[trigger] pushed[j]).1,
                        ) by {
                            if j < i {
                                assert(pushed[j] == read[j]);
                            }
                        }
                        lemma_read_entries(entries, macros, indent, i + 1, pushed, t);
                    } else {
                        let close = seq!['}'] + t;
                        assert(tail == seq!['\n'] + (spaces(indent) + close));
                        lemma_token_after_blank('\n', spaces(indent) + close);
                        lemma_token_after_spaces(indent, close);
                        lemma_token_punctuation('}', t);
                        assert forall|j: int| 0 <= j < pushed.len() implies (#[trigger] pushed[j]).0
                            == entries[j].0 by {
                            if j < i {
                                assert(pushed[j] == read[j]);
                            }
                        }
                        assert forall|j: int| 0 <= j < pushed.len() implies same(
                            entries[j].1,
                            (#[trigger] pushed[j]).1,
                        ) by {
                            if j < i {
                                assert(pushed[j] == read[j]);
                            }
                        }
                    }
                },
                Err(_) => {},
            }
        },
        _ => {},
    }
}

/// White space before the rest of a document does not change what is read.
pub proof fn lemma_document_blank(c: char, s: Seq<char>, doc: DocView)
    requires
        spec_is_whitespace(c),
    ensures
        parse_document(seq![c] + s, doc) == parse_document(s, doc),
{
    lemma_token_after_blank(c, s);
}

/// Whether every argument name is an identifier.
pub open spec fn named(args: Seq<Seq<char>>) -> bool {
    forall|i: int| 0 <= i < args.len() ==> valid_identifier(#[trigger] args[i])
}

/// What follows the argument name before index `j` in a macro definition,
/// up to the end of the input.
pub open spec fn names_tail(args: Seq<Seq<char>>, j: nat, t: Seq<char>) -> Seq<char> {
    names_text(args, j) + seq![')'] + t
}

/// Reading a macro definition's argument names from index `i` on gives them
/// back.
pub proof fn lemma_read_names(
    args: Seq<Seq<char>>,
    i: nat,
    read: Seq<Seq<char>>,
    name: Seq<char>,
    t: Seq<char>,
)
    requires
        i < args.len(),
        named(args),
        read == args.take(i as int),
    ensures
        parse_macro_args(entry_gap(i) + args[i as int] + names_tail(args, i + 1, t), name, read)
            == Ok::<_, Failure>((args, t)),
    decreases args.len() - i,
{
    let tail = names_tail(args, i + 1, t);
    let x = args[i as int] + tail;
    let input = entry_gap(i) + args[i as int] + tail;
    assert(input == entry_gap(i) + x);
    if i > 0 {
        lemma_token_after_blank(' ', x);
    } else {
        assert(input == x);
    }
    assert(tail.len() > 0 && (tail[0] == ',' || tail[0] == ')'));
    lemma_token_identifier(args[i as int], tail);
    let pushed = read.push(args[i as int]);
    assert(pushed == args.take((i + 1) as int));
    if i + 1 < args.len() {
        let z = entry_gap(i + 1) + args[(i + 1) as int] + names_tail(args, i + 2, t);
        assert(tail == seq![','] + z);
        lemma_token_punctuation(',', z);
        lemma_read_names(args, i + 1, pushed, name, t);
    } else {
        assert(tail == seq![')'] + t);
        lemma_token_punctuation(')', t);
        assert(pushed == args);
    }
}

/// Reading a macro definition, behind its `@`, gives the macro back.
pub proof fn lemma_read_macro(mac: MacroView, t: Seq<char>)
    requires
        valid_identifier(mac.name),
        named(mac.args),
    ensures
        parse_macro(mac.name + seq!['('] + names_text(mac.args, 0) + seq![')'] + t) == Ok::<
            _,
            Failure,
        >((mac, t)),
{
    let r = names_tail(mac.args, 0, t);
    let input = mac.name + seq!['('] + names_text(mac.args, 0) + seq![')'] + t;
    assert(input == mac.name + (seq!['('] + r));
    lemma_token_identifier(mac.name, seq!['('] + r);
    lemma_token_punctuation('(', r);
    let empty = Seq::<Seq<char>>::empty();
    if mac.args.len() == 0 {
        assert(r == seq![')'] + t);
        lemma_token_punctuation(')', t);
        assert(mac.args == empty);
    } else {
        assert(r == entry_gap(0) + mac.args[0] + names_tail(mac.args, 1, t));
        assert(empty == mac.args.take(0));
        lemma_read_names(mac.args, 0, empty, mac.name, t);
    }
}

/// Reading a macro's definition registers the macro.
pub proof fn lemma_document_macro(mac: MacroView, t: Seq<char>, doc: DocView)
    requires
        valid_identifier(mac.name),
        named(mac.args),
    ensures
        parse_document(macro_text(mac) + t, doc) == parse_document(t, doc.add_macro(mac)),
{
    let r = mac.name + seq!['('] + names_text(mac.args, 0) + seq![')'] + (seq!['\n'] + t);
    assert(macro_text(mac) + t == seq!['@'] + r);
    lemma_token_punctuation('@', r);
    lemma_read_macro(mac, seq!['\n'] + t);
    lemma_document_blank('\n', t, doc.add_macro(mac));
}

/// The document `base` with the macro table `macros`.
pub open spec fn with_macros(base: DocView, macros: Seq<(Seq<char>, MacroView)>) -> DocView {
    DocView {
        macros,
        is_empty: base.is_empty && macros.len() == 0,
        ..base
    }
}

/// Whether the macros can be written and read back: they are callable, and
/// their argument names are identifiers.
pub open spec fn definable(macros: Seq<(Seq<char>, MacroView)>) -> bool {
    &&& callable(macros)
    &&& forall|i: int| 0 <= i < macros.len() ==> named((#[trigger] macros[i]).1.args)
}

/// Reading the definitions of the macros from index `i` on registers them,
/// in order.
pub proof fn lemma_read_macros(
    macros: Seq<(Seq<char>, MacroView)>,
    i: nat,
    base: DocView,
    t: Seq<char>,
)
    requires
        i <= macros.len(),
        definable(macros),
    ensures
        parse_document(macros_text(macros, i) + t, with_macros(base, macros.take(i as int)))
            == parse_document(t, with_macros(base, macros)),
    decreases macros.len() - i,
{
    if i >= macros.len() {
        assert(macros_text(macros, i) + t == t);
        assert(macros.take(i as int) == macros);
    } else {
        let mac = macros[i as int].1;
        let before = with_macros(base, macros.take(i as int));
        let rest = macros_text(macros, i + 1) + t;
        assert(macros_text(macros, i) + t == macro_text(mac) + rest);
        lemma_document_macro(mac, rest, before);
        assert forall|j: int| 0 <= j < before.macros.len() implies (#[trigger] before.macros[j]).0
            != mac.name by {
            assert(macros[j].0 != macros[i as int].0);
        }
        lemma_find_key_none(before.macros, mac.name);
        assert(macros.take((i + 1) as int) == macros.take(i as int).push((mac.name, mac)));
        assert(before.add_macro(mac) == with_macros(base, macros.take((i + 1) as int)));
        lemma_read_macros(macros, i + 1, base, t);
    }
}

/// The value that is read back from the text of `v`, written as a
/// property's value before `t`.
pub open spec fn reread(v: ValueView, macros: Seq<(Seq<char>, MacroView)>, t: Seq<char>)
    -> ValueView {
    read_value(value_text(v, macros, 0, false) + t, macros)->Ok_0.0
}

/// Reading a property's text registers the property, with a value that is
/// the same as the one written.
pub proof fn lemma_document_property(
    name: Seq<char>,
    v: ValueView,
    t: Seq<char>,
    doc: DocView,
)
    requires
        valid_identifier(name),
        v.wf(),
        callable(doc.macros),
        ends_value(t),
    ensures
        same(v, reread(v, doc.macros, t)),
        parse_document(property_text(name, v, doc.macros, 0, false) + t, doc) == parse_document(
            t,
            doc.add_property(name, reread(v, doc.macros, t)),
        ),
{
    let x = value_text(v, doc.macros, 0, false) + t;
    let after_name = seq![':'] + (seq![' '] + x);
    assert(property_text(name, v, doc.macros, 0, false) + t == name + after_name);
    lemma_token_identifier(name, after_name);
    lemma_token_punctuation(':', seq![' '] + x);
    lemma_token_after_blank(' ', x);
    lemma_read_value(v, doc.macros, 0, false, t);
    assert(parse_property(after_name, name, doc.macros) == Ok::<_, Failure>(
        (reread(v, doc.macros, t), t),
    ));
}

/// Whether the properties of `b` are those of `a`, in order, each with a
/// value that is the same as in `a`.
pub open spec fn same_properties(
    a: Seq<(Seq<char>, ValueView)>,
    b: Seq<(Seq<char>, ValueView)>,
) -> bool {
    &&& a.len() == b.len()
    &&& forall|i: int|
        0 <= i < a.len() ==> (#[trigger] a[i]).0 == b[i].0 && same(a[i].1, b[i].1)
}

/// Whether a document's text can be read back: its macros can be written
/// and read back, its property names are identifiers, no two of them the
/// same, and its values are well formed.
pub open spec fn printable(doc: DocView) -> bool {
    &&& definable(doc.macros)
    &&& distinct_keys(doc.properties)
    &&& forall|i: int|
        0 <= i < doc.properties.len() ==> {
            &&& valid_identifier((#[trigger] doc.properties[i]).0)
            &&& doc.properties[i].1.wf()
        }
}

/// Reading the properties from index `i` on registers them, in order.
pub proof fn lemma_read_properties(doc: DocView, i: nat, read: DocView)
    requires
        i <= doc.properties.len(),
        printable(doc),
        read.macros == doc.macros,
        same_properties(doc.properties.take(i as int), read.properties),
        !read.is_empty || i == 0,
    ensures
        match parse_document(properties_text(doc, i), read) {
            Ok(d) => {
                &&& d.macros == doc.macros
                &&& same_properties(doc.properties, d.properties)
                &&& d.is_empty == (read.is_empty && doc.properties.len() == 0)
            },
            Err(_) => false,
        },
    decreases doc.properties.len() - i,
{
    if i >= doc.properties.len() {
        assert(properties_text(doc, i) == Seq::<char>::empty());
        assert(doc.properties.take(i as int) == doc.properties);
        reveal(next_token);
    } else {
        let name = doc.properties[i as int].0;
        let v = doc.properties[i as int].1;
        let t = seq!['\n', '\n'] + properties_text(doc, i + 1);
        assert(properties_text(doc, i) == property_text(name, v, doc.macros, 0, false) + t);
        lemma_document_property(name, v, t, read);
        let w = reread(v, doc.macros, t);
        assert forall|j: int| 0 <= j < read.properties.len() implies (
        #[trigger] read.properties[j]).0 != name by {
            assert(doc.properties.take(i as int)[j].0 == read.properties[j].0);
            assert(doc.properties[j].0 != doc.properties[i as int].0);
        }
        lemma_find_key_none(read.properties, name);
        let next = read.add_property(name, w);
        assert(next.properties == read.properties.push((name, w)));
        assert(same_properties(doc.properties.take((i + 1) as int), next.properties)) by {
            assert forall|j: int| 0 <= j < i + 1 implies (#[trigger] doc.properties.take(
                (i + 1) as int,
            )[j]).0 == next.properties[j].0 && same(
                doc.properties.take((i + 1) as int)[j].1,
                next.properties[j].1,
            ) by {
                if j < i {
                    assert(doc.properties.take(i as int)[j] == doc.properties[j]);
                    assert(next.properties[j] == read.properties[j]);
                }
            }
        }
        lemma_document_blank('\n', seq!['\n'] + properties_text(doc, i + 1), next);
        lemma_document_blank('\n', properties_text(doc, i + 1), next);
        assert(t == seq!['\n'] + (seq!['\n'] + properties_text(doc, i + 1)));
        lemma_read_properties(doc, i + 1, next);
    }
}

/// Round trip: the text of a document reads back as a document with the
/// same macros, in the same order, and the same properties, in the same
/// order, each value being the same up to the order of the entries of its
/// objects.
///
/// The document must be printable, and one that is flagged empty must hold
/// nothing.
pub proof fn law_round_trip(doc: DocView)
    requires
        printable(doc),
        doc.is_empty ==> doc.macros.len() == 0 && doc.properties.len() == 0,
    ensures
        match parse_document(serialized(doc), DocView::empty()) {
            Ok(d) => {
                &&& d.macros == doc.macros
                &&& same_properties(doc.properties, d.properties)
                &&& d.is_empty == (doc.macros.len() == 0 && doc.properties.len() == 0)
            },
            Err(_) => false,
        },
{
    let base = DocView::empty();
    let no_macros = Seq::<(Seq<char>, MacroView)>::empty();
    let props = properties_text(doc, 0);
    let sep: Seq<char> = if doc.macros.len() > 0 {
        seq!['\n']
    } else {
        Seq::empty()
    };
    assert(doc.macros.take(0) == no_macros);
    assert(with_macros(base, doc.macros.take(0)) == base);
    if doc.is_empty {
        assert(props == Seq::<char>::empty());
        reveal(next_token);
    } else {
        assert(document_text(doc) == macros_text(doc.macros, 0) + (sep + props));
        lemma_read_macros(doc.macros, 0, base, sep + props);
        let start = with_macros(base, doc.macros);
        if doc.macros.len() > 0 {
            lemma_document_blank('\n', props, start);
        } else {
            assert(sep + props == props);
        }
        assert(doc.properties.take(0) == Seq::<(Seq<char>, ValueView)>::empty());
        lemma_read_properties(doc, 0, start);
    }
}

/// Decides `same` for two lists of values.
pub fn same_values(a: &Vec<AeonValue>, b: &Vec<AeonValue>) -> (r: bool)
    ensures
        r == same(ValueView::List(values_view(a@)), ValueView::List(values_view(b@))),
    decreases values_view(a@), 0nat,
{
    let ghost x = values_view(a@);
    let ghost y = values_view(b@);
    proof {
        let list = ValueView::List(x);
        assert(list->List_0 == x);
    }
    if a.len() != b.len() {
        return false;
    }
    let mut i: usize = 0;
    while i < a.len()
        invariant
            i <= a.len(),
            a.len() == b.len(),
            x == values_view(a@),
            y == values_view(b@),
            forall|j: int| 0 <= j < i ==> same(#[trigger] x[j], y[j]),
        decreases a.len() - i,
    {
        assert(x[i as int] == a@[i as int]@ && y[i as int] == b@[i as int]@);
        if !same_value(&a[i], &b[i]) {
            return false;
        }
        i += 1;
    }
    true
}

/// Decides `same` for two objects.
pub fn same_objects(a: &AeonMap, b: &AeonMap) -> (r: bool)
    ensures
        r == same(ValueView::Object(a@), ValueView::Object(b@)),
    decreases a@, 0nat,
{
    proof {
        let object = ValueView::Object(a@);
        assert(object->Object_0 == a@);
    }
    if a.len() != b.len() {
        return false;
    }
    let mine = a.entries();
    let mut i: usize = 0;
    while i < mine.len()
        invariant
            i <= mine.len(),
            entries_view(mine@) == a@,
            forall|j: int| 0 <= j < i ==> find_key(b@, (#[trigger] a@[j]).0) is Some,
        decreases mine.len() - i,
    {
        assert(a@[i as int].0 == mine@[i as int].0@);
        if !b.contains_key(mine[i].0.as_str()) {
            return false;
        }
        i += 1;
    }
    let theirs = b.entries();
    let mut j: usize = 0;
    while j < theirs.len()
        invariant
            j <= theirs.len(),
            entries_view(theirs@) == b@,
            forall|k: int|
                0 <= k < j ==> match find_key(a@, (#[trigger] b@[k]).0) {
                    Some(at) => 0 <= at < a@.len() && same(a@[at].1, b@[k].1),
                    None => false,
                },
        decreases theirs.len() - j,
    {
        assert(b@[j as int] == (theirs@[j as int].0@, theirs@[j as int].1@));
        proof {
            lemma_find_key(a@, b@[j as int].0);
        }
        match a.get(theirs[j].0.as_str()) {
            Some(v) => {
                if !same_value(v, &theirs[j].1) {
                    return false;
                }
            },
            None => {
                return false;
            },
        }
        j += 1;
    }
    true
}

/// Decides `same`: whether two values are the same up to the order of the
/// entries of their objects.
pub fn same_value(a: &AeonValue, b: &AeonValue) -> (r: bool)
    ensures
        r == same(a@, b@),
    decreases a@, 1nat,
{
    match a {
        AeonValue::Nil => match b {
            AeonValue::Nil => true,
            _ => false,
        },
        AeonValue::Bool(x) => match b {
            AeonValue::Bool(y) => *x == *y,
            _ => false,
        },
        AeonValue::String(x) => match b {
            AeonValue::String(y) => *x == *y,
            _ => false,
        },
        AeonValue::Integer(x) => match b {
            AeonValue::Integer(y) => *x == *y,
            _ => false,
        },
        AeonValue::Double(x) => match b {
            AeonValue::Double(y) => x.same_text(y),
            _ => false,
        },
        AeonValue::List(x) => {
            assert(decreases_to!(a@ => a@->List_0));
            match b {
                AeonValue::List(y) => same_values(x, y),
                _ => false,
            }
        },
        AeonValue::Object(x) => {
            assert(decreases_to!(a@ => a@->Object_0));
            match b {
                AeonValue::Object(y) => same_objects(x, y),
                _ => false,
            }
        },
    }
}

/// Decides whether two documents hold the same macros, in the same order,
/// and the same properties, in the same order, each value being the same
/// up to the order of the entries of its objects.
pub fn same_document(a: &AeonDocument, b: &AeonDocument) -> (r: bool)
    ensures
        r == (a@.macros == b@.macros && same_properties(a@.properties, b@.properties)),
{
    assert(a@.macros.len() == a.macros@.len() && b@.macros.len() == b.macros@.len());
    assert(a@.properties.len() == a.properties@.len() && b@.properties.len()
        == b.properties@.len());
    if a.macros.len() != b.macros.len() || a.properties.len() != b.properties.len() {
        return false;
    }
    let mut i: usize = 0;
    while i < a.macros.len()
        invariant
            i <= a.macros.len(),
            a.macros.len() == b.macros.len(),
            forall|j: int| 0 <= j < i ==> #[trigger] a@.macros[j] == b@.macros[j],
        decreases a.macros.len() - i,
    {
        let x = &a.macros[i];
        let y = &b.macros[i];
        assert(a@.macros[i as int] == (x.name@, x@) && b@.macros[i as int] == (y.name@, y@));
        assert(x@.args.len() == x.args@.len() && y@.args.len() == y.args@.len());
        if !(x.name == y.name) || x.args.len() != y.args.len() {
            return false;
        }
        let mut k: usize = 0;
        while k < x.args.len()
            invariant
                k <= x.args.len(),
                x.args.len() == y.args.len(),
                i < a.macros.len(),
                a.macros.len() == b.macros.len(),
                *x == a.macros@[i as int],
                *y == b.macros@[i as int],
                forall|m: int| 0 <= m < k ==> #[trigger] x@.args[m] == y@.args[m],
            decreases x.args.len() - k,
        {
            if !(x.args[k] == y.args[k]) {
                assert(x@.args[k as int] != y@.args[k as int]);
                assert(a@.macros[i as int] != b@.macros[i as int]);
                return false;
            }
            k += 1;
        }
        assert(x@.args == y@.args);
        assert(a@.macros[i as int] == b@.macros[i as int]);
        i += 1;
    }
    assert(a@.macros == b@.macros);
    let mut j: usize = 0;
    while j < a.properties.len()
        invariant
            j <= a.properties.len(),
            a.properties.len() == b.properties.len(),
            forall|k: int|
                0 <= k < j ==> (#[trigger] a@.properties[k]).0 == b@.properties[k].0 && same(
                    a@.properties[k].1,
                    b@.properties[k].1,
                ),
        decreases a.properties.len() - j,
    {
        let x = &a.properties[j];
        let y = &b.properties[j];
        assert(a@.properties[j as int] == (x.name@, x.value@));
        assert(b@.properties[j as int] == (y.name@, y.value@));
        if !(x.name == y.name) || !same_value(&x.value, &y.value) {
            return false;
        }
        j += 1;
    }
    true
}

/// Whether no two of the strings are the same.
pub open spec fn distinct(names: Seq<Seq<char>>) -> bool {
    forall|i: int, j: int| 0 <= i < j < names.len() ==> #[trigger] names[i] != #[trigger] names[j]
}

/// Decides `distinct`.
pub fn are_distinct(names: &Vec<String>) -> (r: bool)
    ensures
        r == distinct(strings_view(names@)),
{
    let ghost all = strings_view(names@);
    let mut j: usize = 0;
    while j < names.len()
        invariant
            j <= names.len(),
            all == strings_view(names@),
            forall|a: int, b: int| 0 <= a < b < j ==> #[trigger] all[a] != #[trigger] all[b],
        decreases names.len() - j,
    {
        let mut i: usize = 0;
        while i < j
            invariant
                i <= j < names.len(),
                all == strings_view(names@),
                forall|a: int| 0 <= a < i ==> #[trigger] all[a] != all[j as int],
            decreases j - i,
        {
            if names[i] == names[j] {
                assert(all[i as int] == all[j as int]);
                return false;
            }
            i += 1;
        }
        j += 1;
    }
    true
}

/// Decides whether the items of a list are well formed.
pub fn are_well_formed(items: &Vec<AeonValue>) -> (r: bool)
    ensures
        r == ValueView::List(values_view(items@)).wf(),
    decreases values_view(items@), 0nat,
{
    let ghost all = values_view(items@);
    proof {
        let list = ValueView::List(all);
        assert(list->List_0 == all);
    }
    let mut i: usize = 0;
    while i < items.len()
        invariant
            i <= items.len(),
            all == values_view(items@),
            forall|j: int| 0 <= j < i ==> (#[trigger] all[j]).wf(),
        decreases items.len() - i,
    {
        assert(all[i as int] == items@[i as int]@);
        if !is_well_formed(&items[i]) {
            proof {
                let list = ValueView::List(all);
                assert(list->List_0 == all);
            }
            return false;
        }
        i += 1;
    }
    true
}

/// The keys of the entries, in order.
pub open spec fn keys_of<V>(entries: Seq<(Seq<char>, V)>) -> Seq<Seq<char>> {
    Seq::new(entries.len(), |i: int| entries[i].0)
}

/// The keys of entries are distinct where no two entries have the same
/// key.
pub proof fn lemma_keys_distinct<V>(entries: Seq<(Seq<char>, V)>)
    ensures
        distinct(keys_of(entries)) == distinct_keys(entries),
{
    let keys = keys_of(entries);
    if distinct(keys) {
        assert forall|i: int, j: int| 0 <= i < j < entries.len() implies (#[trigger] entries[i]).0
            != (#[trigger] entries[j]).0 by {
            assert(keys[i] != keys[j]);
        }
    }
    if distinct_keys(entries) {
        assert forall|i: int, j: int| 0 <= i < j < keys.len() implies #[trigger] keys[i]
            != #[trigger] keys[j] by {
            assert(entries[i].0 != entries[j].0);
        }
    }
}

/// Decides whether an object is well formed.
pub fn is_well_formed_object(map: &AeonMap) -> (r: bool)
    ensures
        r == ValueView::Object(map@).wf(),
    decreases map@, 0nat,
{
    proof {
        let object = ValueView::Object(map@);
        assert(object->Object_0 == map@);
        lemma_keys_distinct(map@);
    }
    let entries = map.entries();
    let mut keys: Vec<String> = Vec::new();
    let mut i: usize = 0;
    while i < entries.len()
        invariant
            i <= entries.len(),
            entries_view(entries@) == map@,
            keys@.len() == i,
            forall|j: int| 0 <= j < i ==> (#[trigger] keys@[j])@ == map@[j].0,
            forall|j: int| 0 <= j < i ==> (#[trigger] map@[j]).1.wf(),
        decreases entries.len() - i,
    {
        let entry = &entries[i];
        assert(map@[i as int] == (entry.0@, entry.1@));
        assert(decreases_to!(map@ => map@[i as int].1));
        if !is_well_formed(&entry.1) {
            return false;
        }
        keys.push(entry.0.clone());
        i += 1;
    }
    assert(strings_view(keys@) == keys_of(map@));
    are_distinct(&keys)
}

/// Decides whether a value is well formed: no object in it holds a key
/// twice.
pub fn is_well_formed(value: &AeonValue) -> (r: bool)
    ensures
        r == value@.wf(),
    decreases value@, 1nat,
{
    match value {
        AeonValue::Double(d) => {
            let _ = d.as_str();
            true
        },
        AeonValue::List(items) => {
            assert(decreases_to!(value@ => value@->List_0));
            are_well_formed(items)
        },
        AeonValue::Object(map) => {
            assert(decreases_to!(value@ => value@->Object_0));
            is_well_formed_object(map)
        },
        _ => true,
    }
}

/// Decides `printable`: whether the document's text can be read back, so
/// that the round trip gives the same document.
pub fn is_printable(doc: &AeonDocument) -> (r: bool)
    ensures
        r == printable(doc@),
{
    let mut names: Vec<String> = Vec::new();
    let mut i: usize = 0;
    while i < doc.macros.len()
        invariant
            i <= doc.macros.len(),
            names@.len() == i,
            forall|j: int| 0 <= j < i ==> (#[trigger] names@[j])@ == doc@.macros[j].0,
            forall|j: int|
                0 <= j < i ==> {
                    &&& valid_identifier((#[trigger] doc@.macros[j]).1.name)
                    &&& doc@.macros[j].1.distinct_args()
                    &&& named(doc@.macros[j].1.args)
                },
        decreases doc.macros.len() - i,
    {
        let mac = &doc.macros[i];
        assert(doc@.macros[i as int] == (mac.name@, mac@));
        if !is_valid_identifier(mac.name.as_str()) || !are_distinct(&mac.args) {
            return false;
        }
        let mut k: usize = 0;
        while k < mac.args.len()
            invariant
                k <= mac.args.len(),
                i < doc.macros.len(),
                doc@.macros[i as int] == (mac.name@, mac@),
                forall|m: int| 0 <= m < k ==> valid_identifier(#[trigger] mac@.args[m]),
            decreases mac.args.len() - k,
        {
            if !is_valid_identifier(mac.args[k].as_str()) {
                assert(!valid_identifier(mac@.args[k as int]));
                assert(!named(doc@.macros[i as int].1.args));
                return false;
            }
            k += 1;
        }
        names.push(mac.name.clone());
        i += 1;
    }
    proof {
        lemma_keys_distinct(doc@.macros);
        assert(strings_view(names@) == keys_of(doc@.macros));
    }
    if !are_distinct(&names) {
        return false;
    }
    let mut names: Vec<String> = Vec::new();
    let mut j: usize = 0;
    while j < doc.properties.len()
        invariant
            j <= doc.properties.len(),
            definable(doc@.macros),
            names@.len() == j,
            forall|k: int| 0 <= k < j ==> (#[trigger] names@[k])@ == doc@.properties[k].0,
            forall|k: int|
                0 <= k < j ==> {
                    &&& valid_identifier((#[trigger] doc@.properties[k]).0)
                    &&& doc@.properties[k].1.wf()
                },
        decreases doc.properties.len() - j,
    {
        let property = &doc.properties[j];
        assert(doc@.properties[j as int] == (property.name@, property.value@));
        if !is_valid_identifier(property.name.as_str()) || !is_well_formed(&property.value) {
            return false;
        }
        names.push(property.name.clone());
        j += 1;
    }
    proof {
        lemma_keys_distinct(doc@.properties);
        assert(strings_view(names@) == keys_of(doc@.properties));
    }
    are_distinct(&names)
}

} // verus!
