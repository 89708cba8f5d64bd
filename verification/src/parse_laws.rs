//! What holds of everything that the deserializer reads.
use crate::deserializer::{
    closer, expect, parse_document, parse_entries, parse_entry, parse_items, parse_macro,
    parse_property, parse_value,
};
use crate::document::{
    lemma_bind_args_wf, lemma_document_wf, msg_macro_missing, DocView, MacroView,
};
use crate::error::Failure;
use crate::lexer::{lemma_next_token_shrinks, next_token, token_at};
use crate::token::TokenView;
use crate::value::{
    find_key, is_double_literal, lemma_list_wf, lemma_object_wf, lemma_upsert_wf, upsert,
    ValueView,
};
use vstd::prelude::*;

verus! {

/// A value never ends behind the end of the input it is read from.
pub proof fn lemma_parse_value_rest(
    s: Seq<char>,
    token: TokenView,
    macros: Seq<(Seq<char>, MacroView)>,
)
    ensures
        match parse_value(s, token, macros) {
            Ok((_, rest)) => rest.len() <= s.len(),
            Err(_) => true,
        },
    decreases s.len(), 1nat,
{
    match token {
        TokenView::Identifier(name) => {
            lemma_next_token_shrinks(s);
            match expect(s, TokenView::LeftParenthesis) {
                Ok(rest) => {
                    lemma_parse_items_rest(rest, macros, Some(name), Seq::empty());
                },
                Err(_) => {},
            }
        },
        TokenView::LeftBracket => {
            lemma_parse_items_rest(s, macros, None, Seq::empty());
        },
        TokenView::LeftBrace => {
            lemma_parse_entries_rest(s, macros, Seq::empty());
        },
        _ => {},
    }
}

/// The values of a call or a list never end behind the end of the input.
pub proof fn lemma_parse_items_rest(
    s: Seq<char>,
    macros: Seq<(Seq<char>, MacroView)>,
    call: Option<Seq<char>>,
    values: Seq<ValueView>,
)
    ensures
        match parse_items(s, macros, call, values) {
            Ok((_, rest)) => rest.len() <= s.len(),
            Err(_) => true,
        },
    decreases s.len(), 0nat,
{
    lemma_next_token_shrinks(s);
    match next_token(s) {
        Ok(Some((token, rest))) => {
            if token != closer(call) {
                lemma_parse_value_rest(rest, token, macros);
                match parse_value(rest, token, macros) {
                    Ok((value, rest2)) => {
                        if rest2.len() <= rest.len() {
                            lemma_next_token_shrinks(rest2);
                            match next_token(rest2) {
                                Ok(Some((separator, rest3))) => {
                                    if separator == TokenView::Comma {
                                        lemma_parse_items_rest(
                                            rest3,
                                            macros,
                                            call,
                                            values.push(value),
                                        );
                                    }
                                },
                                _ => {},
                            }
                        }
                    },
                    Err(_) => {},
                }
            }
        },
        _ => {},
    }
}

/// The entries of a brace map never end behind the end of the input.
pub proof fn lemma_parse_entries_rest(
    s: Seq<char>,
    macros: Seq<(Seq<char>, MacroView)>,
    entries: Seq<(Seq<char>, ValueView)>,
)
    ensures
        match parse_entries(s, macros, entries) {
            Ok((_, rest)) => rest.len() <= s.len(),
            Err(_) => true,
        },
    decreases s.len(), 0nat,
{
    lemma_next_token_shrinks(s);
    match next_token(s) {
        Ok(Some((token, rest))) => {
            match token {
                TokenView::String(key) | TokenView::Identifier(key) => {
                    lemma_parse_entry_rest(rest, key, macros);
                    match parse_entry(rest, key, macros) {
                        Ok((value, rest2)) => {
                            if rest2.len() <= rest.len() {
                                lemma_next_token_shrinks(rest2);
                                match next_token(rest2) {
                                    Ok(Some((separator, rest3))) => {
                                        if separator == TokenView::Comma {
                                            lemma_parse_entries_rest(
                                                rest3,
                                                macros,
                                                upsert(entries, key, value),
                                            );
                                        }
                                    },
                                    _ => {},
                                }
                            }
                        },
                        Err(_) => {},
                    }
                },
                _ => {},
            }
        },
        _ => {},
    }
}

/// The value of an entry never ends behind the end of the input.
pub proof fn lemma_parse_entry_rest(
    s: Seq<char>,
    key: Seq<char>,
    macros: Seq<(Seq<char>, MacroView)>,
)
    ensures
        match parse_entry(s, key, macros) {
            Ok((_, rest)) => rest.len() <= s.len(),
            Err(_) => true,
        },
    decreases s.len(), 2nat,
{
    lemma_next_token_shrinks(s);
    match expect(s, TokenView::Colon) {
        Ok(rest) => {
            lemma_next_token_shrinks(rest);
            match next_token(rest) {
                Ok(Some((token, rest2))) => {
                    lemma_parse_value_rest(rest2, token, macros);
                },
                _ => {},
            }
        },
        Err(_) => {},
    }
}

/// Forward references are rejected: the call of a macro that is not among
/// the macros defined so far fails. Where the call itself is well formed,
/// the failure names the macro.
pub proof fn law_unknown_macro(s: Seq<char>, name: Seq<char>, macros: Seq<(Seq<char>, MacroView)>)
    requires
        find_key(macros, name) is None,
    ensures
        parse_value(s, TokenView::Identifier(name), macros) is Err,
        match expect(s, TokenView::LeftParenthesis) {
            Ok(rest) => parse_items(rest, macros, Some(name), Seq::empty()) is Ok ==> parse_value(
                s,
                TokenView::Identifier(name),
                macros,
            ) == Err::<(ValueView, Seq<char>), _>(
                Failure::deserialization(msg_macro_missing(name)),
            ),
            Err(_) => true,
        },
{
}

/// A property is read with the macros defined before it: the macro table
/// of the document as it stands when the property begins.
pub proof fn law_macros_so_far(s: Seq<char>, doc: DocView)
    ensures
        match next_token(s) {
            Ok(Some((TokenView::Identifier(name), rest))) => match parse_property(
                rest,
                name,
                doc.macros,
            ) {
                Ok((value, rest2)) => parse_document(s, doc) == parse_document(
                    rest2,
                    doc.add_property(name, value),
                ),
                Err(e) => parse_document(s, doc) == Err::<DocView, _>(e),
            },
            _ => true,
        },
{
}

/// A property's value never ends behind the end of the input.
pub proof fn lemma_property_rest(s: Seq<char>, name: Seq<char>, macros: Seq<(Seq<char>, MacroView)>)
    ensures
        match parse_property(s, name, macros) {
            Ok((_, rest)) => rest.len() <= s.len(),
            Err(_) => true,
        },
{
    lemma_next_token_shrinks(s);
    match expect(s, TokenView::Colon) {
        Ok(rest) => {
            lemma_next_token_shrinks(rest);
            match next_token(rest) {
                Ok(Some((token, rest2))) => {
                    lemma_parse_value_rest(rest2, token, macros);
                },
                _ => {},
            }
        },
        Err(_) => {},
    }
}

/// The double that a token holds is a decimal literal.
pub proof fn lemma_token_double_literal(s: Seq<char>)
    ensures
        match next_token(s) {
            Ok(Some((TokenView::Double(text), _))) => is_double_literal(text),
            _ => true,
        },
{
    reveal(next_token);
    reveal(token_at);
}

/// The value that is read is well formed.
pub proof fn lemma_parse_value_wf(
    s: Seq<char>,
    token: TokenView,
    macros: Seq<(Seq<char>, MacroView)>,
)
    requires
        token matches TokenView::Double(text) ==> is_double_literal(text),
    ensures
        match parse_value(s, token, macros) {
            Ok((value, _)) => value.wf(),
            Err(_) => true,
        },
    decreases s.len(), 1nat,
{
    let none = Seq::<ValueView>::empty();
    match token {
        TokenView::Identifier(name) => {
            lemma_next_token_shrinks(s);
            match expect(s, TokenView::LeftParenthesis) {
                Ok(rest) => {
                    lemma_list_wf(none);
                    lemma_parse_items_wf(rest, macros, Some(name), none);
                    match parse_items(rest, macros, Some(name), none) {
                        Ok((values, _)) => {
                            lemma_list_wf(values);
                            match find_key(macros, name) {
                                Some(i) => {
                                    let args = macros[i].1.args;
                                    if args.len() == values.len() {
                                        lemma_bind_args_wf(args, values, args.len());
                                    }
                                },
                                None => {},
                            }
                        },
                        Err(_) => {},
                    }
                },
                Err(_) => {},
            }
        },
        TokenView::LeftBracket => {
            lemma_list_wf(none);
            lemma_parse_items_wf(s, macros, None, none);
        },
        TokenView::LeftBrace => {
            lemma_object_wf(Seq::empty());
            lemma_parse_entries_wf(s, macros, Seq::empty());
        },
        _ => {},
    }
}

/// The values of a call or a list that are read are well formed.
pub proof fn lemma_parse_items_wf(
    s: Seq<char>,
    macros: Seq<(Seq<char>, MacroView)>,
    call: Option<Seq<char>>,
    values: Seq<ValueView>,
)
    requires
        ValueView::List(values).wf(),
    ensures
        match parse_items(s, macros, call, values) {
            Ok((all, _)) => ValueView::List(all).wf(),
            Err(_) => true,
        },
    decreases s.len(), 0nat,
{
    lemma_next_token_shrinks(s);
    lemma_token_double_literal(s);
    match next_token(s) {
        Ok(Some((token, rest))) => {
            if token != closer(call) {
                lemma_parse_value_wf(rest, token, macros);
                match parse_value(rest, token, macros) {
                    Ok((value, rest2)) => {
                        let pushed = values.push(value);
                        lemma_list_wf(values);
                        lemma_list_wf(pushed);
                        assert forall|i: int| 0 <= i < pushed.len() implies (
                        #[trigger] pushed[i]).wf() by {
                            if i < values.len() {
                                assert(pushed[i] == values[i]);
                            }
                        }
                        if rest2.len() <= rest.len() {
                            lemma_next_token_shrinks(rest2);
                            match next_token(rest2) {
                                Ok(Some((separator, rest3))) => {
                                    if separator == TokenView::Comma {
                                        lemma_parse_items_wf(rest3, macros, call, pushed);
                                    }
                                },
                                _ => {},
                            }
                        }
                    },
                    Err(_) => {},
                }
            }
        },
        _ => {},
    }
}

/// The entries of a brace map that are read make a well-formed object.
pub proof fn lemma_parse_entries_wf(
    s: Seq<char>,
    macros: Seq<(Seq<char>, MacroView)>,
    entries: Seq<(Seq<char>, ValueView)>,
)
    requires
        ValueView::Object(entries).wf(),
    ensures
        match parse_entries(s, macros, entries) {
            Ok((all, _)) => ValueView::Object(all).wf(),
            Err(_) => true,
        },
    decreases s.len(), 0nat,
{
    lemma_next_token_shrinks(s);
    match next_token(s) {
        Ok(Some((token, rest))) => {
            match token {
                TokenView::String(key) | TokenView::Identifier(key) => {
                    lemma_parse_entry_wf(rest, key, macros);
                    match parse_entry(rest, key, macros) {
                        Ok((value, rest2)) => {
                            lemma_upsert_wf(entries, key, value);
                            if rest2.len() <= rest.len() {
                                lemma_next_token_shrinks(rest2);
                                match next_token(rest2) {
                                    Ok(Some((separator, rest3))) => {
                                        if separator == TokenView::Comma {
                                            lemma_parse_entries_wf(
                                                rest3,
                                                macros,
                                                upsert(entries, key, value),
                                            );
                                        }
                                    },
                                    _ => {},
                                }
                            }
                        },
                        Err(_) => {},
                    }
                },
                _ => {},
            }
        },
        _ => {},
    }
}

/// The value of an entry that is read is well formed.
pub proof fn lemma_parse_entry_wf(s: Seq<char>, key: Seq<char>, macros: Seq<(Seq<char>, MacroView)>)
    ensures
        match parse_entry(s, key, macros) {
            Ok((value, _)) => value.wf(),
            Err(_) => true,
        },
    decreases s.len(), 2nat,
{
    lemma_next_token_shrinks(s);
    match expect(s, TokenView::Colon) {
        Ok(rest) => {
            lemma_next_token_shrinks(rest);
            lemma_token_double_literal(rest);
            match next_token(rest) {
                Ok(Some((token, rest2))) => {
                    lemma_parse_value_wf(rest2, token, macros);
                },
                _ => {},
            }
        },
        Err(_) => {},
    }
}

/// A macro definition never ends behind the end of the input.
pub proof fn lemma_macro_rest(s: Seq<char>)
    ensures
        match parse_macro(s) {
            Ok((_, rest)) => rest.len() <= s.len(),
            Err(_) => true,
        },
{
    lemma_next_token_shrinks(s);
    match crate::deserializer::expect_identifier(s) {
        Ok((name, rest)) => {
            lemma_next_token_shrinks(rest);
            match expect(rest, TokenView::LeftParenthesis) {
                Ok(rest2) => {
                    lemma_macro_args_rest(rest2, name, Seq::empty());
                },
                Err(_) => {},
            }
        },
        Err(_) => {},
    }
}

/// The argument names of a macro definition never end behind the end of
/// the input.
pub proof fn lemma_macro_args_rest(s: Seq<char>, name: Seq<char>, args: Seq<Seq<char>>)
    ensures
        match crate::deserializer::parse_macro_args(s, name, args) {
            Ok((_, rest)) => rest.len() <= s.len(),
            Err(_) => true,
        },
    decreases s.len(),
{
    lemma_next_token_shrinks(s);
    match next_token(s) {
        Ok(Some((TokenView::Identifier(id), rest))) => {
            lemma_next_token_shrinks(rest);
            match next_token(rest) {
                Ok(Some((TokenView::Comma, rest2))) => {
                    lemma_macro_args_rest(rest2, name, args.push(id));
                },
                _ => {},
            }
        },
        _ => {},
    }
}

/// What is read is well formed: the document that a text adds to a
/// well-formed document is well formed.
pub proof fn law_parsed_wf(s: Seq<char>, doc: DocView)
    requires
        doc.wf(),
    ensures
        match parse_document(s, doc) {
            Ok(d) => d.wf(),
            Err(_) => true,
        },
    decreases s.len(),
{
    lemma_next_token_shrinks(s);
    match next_token(s) {
        Ok(Some((token, rest))) => {
            match token {
                TokenView::At => {
                    match parse_macro(rest) {
                        Ok((mac, rest2)) => {
                            lemma_macro_rest(rest);
                            lemma_document_wf(doc, Seq::empty(), ValueView::Nil, mac);
                            law_parsed_wf(rest2, doc.add_macro(mac));
                        },
                        Err(_) => {},
                    }
                },
                TokenView::Identifier(name) => {
                    match parse_property(rest, name, doc.macros) {
                        Ok((value, rest2)) => {
                            lemma_property_rest(rest, name, doc.macros);
                            lemma_property_wf(rest, name, doc.macros);
                            lemma_document_wf(doc, name, value, arbitrary());
                            law_parsed_wf(rest2, doc.add_property(name, value));
                        },
                        Err(_) => {},
                    }
                },
                _ => {},
            }
        },
        _ => {},
    }
}

/// The value of a property that is read is well formed.
pub proof fn lemma_property_wf(s: Seq<char>, name: Seq<char>, macros: Seq<(Seq<char>, MacroView)>)
    ensures
        match parse_property(s, name, macros) {
            Ok((value, _)) => value.wf(),
            Err(_) => true,
        },
{
    match expect(s, TokenView::Colon) {
        Ok(rest) => {
            lemma_token_double_literal(rest);
            match next_token(rest) {
                Ok(Some((token, rest2))) => {
                    lemma_parse_value_wf(rest2, token, macros);
                },
                _ => {},
            }
        },
        Err(_) => {},
    }
}

} // verus!
