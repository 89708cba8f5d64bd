//! The deserializer: from tokens to a document, by recursive descent.
use crate::document::{apply_macro, strings_view, AeonDocument, AeonMacro, DocView, MacroView};
use crate::error::{AeonDeserializeError, Failure};
use crate::lexer::{lemma_next_token_shrinks, next_token, Lexer};
use crate::token::{Token, TokenView};
use crate::value::{upsert, values_view, AeonMap, AeonValue, ValueView};
use vstd::prelude::*;
use vstd::string::StringExecFns;

verus! {

pub open spec fn msg_end() -> Seq<char> {
    "Unexpected end of input"@
}

pub open spec fn msg_unexpected(found: TokenView) -> Seq<char> {
    "Unexpected token: "@ + found.describe()
}

pub open spec fn msg_unexpected_in(place: Seq<char>, found: TokenView) -> Seq<char> {
    "Unexpected token in "@ + place + ": "@ + found.describe()
}

pub open spec fn msg_unterminated(what: Seq<char>) -> Seq<char> {
    "Unterminated "@ + what
}

pub open spec fn msg_unterminated_named(what: Seq<char>, name: Seq<char>) -> Seq<char> {
    "Unterminated "@ + what + name
}

/// The failure of a value that ends behind the end of the input it was read
/// from. No input has it: see `lemma_parse_value_rest`.
pub open spec fn overrun() -> Failure {
    Failure::deserialization(msg_end())
}

/// What is left of the input behind the token `want`, which must come next.
pub open spec fn expect(s: Seq<char>, want: TokenView) -> Result<Seq<char>, Failure> {
    match next_token(s) {
        Err(e) => Err(e),
        Ok(None) => Err(Failure::deserialization(msg_end())),
        Ok(Some((token, rest))) => if token == want {
            Ok(rest)
        } else {
            Err(Failure::deserialization(msg_unexpected(token)))
        },
    }
}

/// The identifier that must come next, and what is left behind it.
pub open spec fn expect_identifier(s: Seq<char>) -> Result<(Seq<char>, Seq<char>), Failure> {
    match next_token(s) {
        Err(e) => Err(e),
        Ok(None) => Err(Failure::deserialization(msg_end())),
        Ok(Some((token, rest))) => match token {
            TokenView::Identifier(name) => Ok((name, rest)),
            _ => Err(Failure::deserialization(msg_unexpected(token))),
        },
    }
}

/// The argument names of a macro definition, behind its opening parenthesis:
/// identifiers separated by commas, the last one optionally followed by a
/// comma, then the closing parenthesis. `args` holds the names read so far.
pub open spec fn parse_macro_args(s: Seq<char>, name: Seq<char>, args: Seq<Seq<char>>) -> Result<
    (Seq<Seq<char>>, Seq<char>),
    Failure,
>
    decreases s.len(),
{
    match next_token(s) {
        Err(e) => Err(e),
        Ok(None) => Err(
            Failure::deserialization(msg_unterminated_named("macro definition "@, name)),
        ),
        Ok(Some((token, rest))) => match token {
            TokenView::RightParenthesis => Ok((args, rest)),
            TokenView::Identifier(id) => match next_token(rest) {
                Err(e) => Err(e),
                Ok(None) => Err(
                    Failure::deserialization(msg_unterminated_named("macro definition "@, name)),
                ),
                Ok(Some((separator, rest2))) => match separator {
                    TokenView::Comma => {
                        proof {
                            lemma_next_token_shrinks(s);
                            lemma_next_token_shrinks(rest);
                        }
                        parse_macro_args(rest2, name, args.push(id))
                    },
                    TokenView::RightParenthesis => Ok((args.push(id), rest2)),
                    _ => Err(
                        Failure::deserialization(
                            msg_unexpected_in("macro definition"@, separator),
                        ),
                    ),
                },
            },
            _ => Err(Failure::deserialization(msg_unexpected_in("macro definition"@, token))),
        },
    }
}

/// The macro that a definition registers, behind its `@`.
pub open spec fn parse_macro(s: Seq<char>) -> Result<(MacroView, Seq<char>), Failure> {
    match expect_identifier(s) {
        Err(e) => Err(e),
        Ok((name, rest)) => match expect(rest, TokenView::LeftParenthesis) {
            Err(e) => Err(e),
            Ok(rest2) => match parse_macro_args(rest2, name, Seq::empty()) {
                Err(e) => Err(e),
                Ok((args, rest3)) => Ok((MacroView { name, args }, rest3)),
            },
        },
    }
}

/// The token that closes a macro call (`call` names the macro) or a list.
pub open spec fn closer(call: Option<Seq<char>>) -> TokenView {
    if call is Some {
        TokenView::RightParenthesis
    } else {
        TokenView::RightBracket
    }
}

/// How a message names a macro call or a list.
pub open spec fn place(call: Option<Seq<char>>) -> Seq<char> {
    if call is Some {
        "macro call"@
    } else {
        "list"@
    }
}

/// The failure of a macro call or a list that the input ends in.
pub open spec fn open_ended(call: Option<Seq<char>>) -> Failure {
    match call {
        Some(name) => Failure::deserialization(msg_unterminated_named("macro call "@, name)),
        None => Failure::deserialization(msg_unterminated("list"@)),
    }
}

/// The value that starts with the token `token`, and what is left of the
/// input behind the value. `s` is the input behind the token. A macro is
/// looked up in `macros`, the macros defined so far.
pub open spec fn parse_value(s: Seq<char>, token: TokenView, macros: Seq<(Seq<char>, MacroView)>)
    -> Result<(ValueView, Seq<char>), Failure>
    decreases s.len(), 1nat,
{
    match token {
        TokenView::Identifier(name) => match expect(s, TokenView::LeftParenthesis) {
            Err(e) => Err(e),
            Ok(rest) => {
                proof {
                    lemma_next_token_shrinks(s);
                }
                match parse_items(rest, macros, Some(name), Seq::empty()) {
                    Err(e) => Err(e),
                    Ok((values, rest2)) => match apply_macro(macros, name, values) {
                        Err(e) => Err(e),
                        Ok(object) => Ok((object, rest2)),
                    },
                }
            },
        },
        TokenView::LeftBracket => match parse_items(s, macros, None, Seq::empty()) {
            Err(e) => Err(e),
            Ok((values, rest)) => Ok((ValueView::List(values), rest)),
        },
        TokenView::LeftBrace => match parse_entries(s, macros, Seq::empty()) {
            Err(e) => Err(e),
            Ok((entries, rest)) => Ok((ValueView::Object(entries), rest)),
        },
        TokenView::String(text) => Ok((ValueView::String(text), s)),
        TokenView::Integer(i) => Ok((ValueView::Integer(i), s)),
        TokenView::Double(text) => Ok((ValueView::Double(text), s)),
        TokenView::True => Ok((ValueView::Bool(true), s)),
        TokenView::False => Ok((ValueView::Bool(false), s)),
        TokenView::Nil => Ok((ValueView::Nil, s)),
        _ => Err(Failure::deserialization(msg_unexpected_in("property value"@, token))),
    }
}

/// The values of a macro call (`call` names the macro) or of a list, behind
/// the opening delimiter: values separated by commas, the last one
/// optionally followed by a comma, then the closing delimiter. `values`
/// holds the values read so far.
pub open spec fn parse_items(
    s: Seq<char>,
    macros: Seq<(Seq<char>, MacroView)>,
    call: Option<Seq<char>>,
    values: Seq<ValueView>,
) -> Result<(Seq<ValueView>, Seq<char>), Failure>
    decreases s.len(), 0nat,
{
    match next_token(s) {
        Err(e) => Err(e),
        Ok(None) => Err(open_ended(call)),
        Ok(Some((token, rest))) => if token == closer(call) {
            Ok((values, rest))
        } else {
            proof {
                lemma_next_token_shrinks(s);
            }
            match parse_value(rest, token, macros) {
                Err(e) => Err(e),
                Ok((value, rest2)) => if rest2.len() > rest.len() {
                    Err(overrun())
                } else {
                    match next_token(rest2) {
                        Err(e) => Err(e),
                        Ok(None) => Err(open_ended(call)),
                        Ok(Some((separator, rest3))) => if separator == TokenView::Comma {
                            proof {
                                lemma_next_token_shrinks(rest2);
                            }
                            parse_items(rest3, macros, call, values.push(value))
                        } else if separator == closer(call) {
                            Ok((values.push(value), rest3))
                        } else {
                            Err(Failure::deserialization(msg_unexpected_in(place(call), separator)))
                        },
                    }
                },
            }
        },
    }
}

/// The entries of a brace map, behind its opening brace: `key: value` pairs
/// separated by commas, the last one optionally followed by a comma, then
/// the closing brace. A key is an identifier or a string; a key that occurs
/// again replaces the earlier value. `entries` holds the entries read so
/// far.
pub open spec fn parse_entries(
    s: Seq<char>,
    macros: Seq<(Seq<char>, MacroView)>,
    entries: Seq<(Seq<char>, ValueView)>,
) -> Result<(Seq<(Seq<char>, ValueView)>, Seq<char>), Failure>
    decreases s.len(), 0nat,
{
    match next_token(s) {
        Err(e) => Err(e),
        Ok(None) => Err(Failure::deserialization(msg_unterminated("map"@))),
        Ok(Some((token, rest))) => match token {
            TokenView::RightBrace => Ok((entries, rest)),
            TokenView::String(key) | TokenView::Identifier(key) => {
                proof {
                    lemma_next_token_shrinks(s);
                }
                match parse_entry(rest, key, macros) {
                    Err(e) => Err(e),
                    Ok((value, rest2)) => if rest2.len() > rest.len() {
                        Err(overrun())
                    } else {
                        match next_token(rest2) {
                            Err(e) => Err(e),
                            Ok(None) => Err(Failure::deserialization(msg_unterminated("map"@))),
                            Ok(Some((separator, rest3))) => match separator {
                                TokenView::Comma => {
                                    proof {
                                        lemma_next_token_shrinks(rest2);
                                    }
                                    parse_entries(rest3, macros, upsert(entries, key, value))
                                },
                                TokenView::RightBrace => Ok(
                                    (upsert(entries, key, value), rest3),
                                ),
                                _ => Err(
                                    Failure::deserialization(msg_unexpected_in("map"@, separator)),
                                ),
                            },
                        }
                    },
                }
            },
            _ => Err(
                Failure::deserialization(
                    msg_unexpected_in("map"@, token) + ", expected string key"@,
                ),
            ),
        },
    }
}

/// The value of a brace map's entry, behind the key: a colon, then the
/// value.
pub open spec fn parse_entry(s: Seq<char>, key: Seq<char>, macros: Seq<(Seq<char>, MacroView)>)
    -> Result<(ValueView, Seq<char>), Failure>
    decreases s.len(), 2nat,
{
    match expect(s, TokenView::Colon) {
        Err(e) => Err(e),
        Ok(rest) => match next_token(rest) {
            Err(e) => Err(e),
            Ok(None) => Err(Failure::deserialization(msg_unterminated_named("map with key "@, key))),
            Ok(Some((token, rest2))) => {
                proof {
                    lemma_next_token_shrinks(s);
                    lemma_next_token_shrinks(rest);
                }
                parse_value(rest2, token, macros)
            },
        },
    }
}

/// The value of a property, behind its name: a colon, then the value.
pub open spec fn parse_property(s: Seq<char>, name: Seq<char>, macros: Seq<(Seq<char>, MacroView)>)
    -> Result<(ValueView, Seq<char>), Failure> {
    match expect(s, TokenView::Colon) {
        Err(e) => Err(e),
        Ok(rest) => match next_token(rest) {
            Err(e) => Err(e),
            Ok(None) => Err(
                Failure::deserialization(msg_unterminated_named("property value "@, name)),
            ),
            Ok(Some((token, rest2))) => parse_value(rest2, token, macros),
        },
    }
}

/// The document that the input `s` adds to `doc`: macro definitions and
/// properties in any order, each registered unless its name is taken. A
/// macro can be used only behind its definition.
pub open spec fn parse_document(s: Seq<char>, doc: DocView) -> Result<DocView, Failure>
    decreases s.len(),
{
    match next_token(s) {
        Err(e) => Err(e),
        Ok(None) => Ok(doc),
        Ok(Some((token, rest))) => match token {
            TokenView::At => match parse_macro(rest) {
                Err(e) => Err(e),
                Ok((mac, rest2)) => {
                    proof {
                        lemma_next_token_shrinks(s);
                        crate::parse_laws::lemma_macro_rest(rest);
                    }
                    parse_document(rest2, doc.add_macro(mac))
                },
            },
            TokenView::Identifier(name) => match parse_property(rest, name, doc.macros) {
                Err(e) => Err(e),
                Ok((value, rest2)) => {
                    proof {
                        lemma_next_token_shrinks(s);
                        crate::parse_laws::lemma_property_rest(rest, name, doc.macros);
                    }
                    parse_document(rest2, doc.add_property(name, value))
                },
            },
            _ => Err(Failure::deserialization(msg_unexpected_in("main scope"@, token))),
        },
    }
}

/// Reads a document from text by recursive descent.
pub struct Deserializer {
    lexer: Lexer,
}

/// The failure of reaching the end of the input where a token must come.
fn fail_end() -> (e: AeonDeserializeError)
    ensures
        e@ == Failure::deserialization(msg_end()),
{
    AeonDeserializeError::deserialization(String::from_str("Unexpected end of input"))
}

/// The failure of meeting a token other than the one that must come.
fn fail_unexpected(found: &Token) -> (e: AeonDeserializeError)
    ensures
        e@ == Failure::deserialization(msg_unexpected(found@)),
{
    let mut message = String::from_str("Unexpected token: ");
    message.append(found.describe().as_str());
    AeonDeserializeError::deserialization(message)
}

/// The failure of meeting a token that cannot stand at its place.
fn fail_unexpected_in(place: &str, found: &Token) -> (e: AeonDeserializeError)
    ensures
        e@ == Failure::deserialization(msg_unexpected_in(place@, found@)),
{
    let mut message = String::from_str("Unexpected token in ");
    message.append(place);
    message.append(": ");
    message.append(found.describe().as_str());
    AeonDeserializeError::deserialization(message)
}

/// The failure of a construct that the input ends in.
fn fail_unterminated(what: &str) -> (e: AeonDeserializeError)
    ensures
        e@ == Failure::deserialization(msg_unterminated(what@)),
{
    let mut message = String::from_str("Unterminated ");
    message.append(what);
    AeonDeserializeError::deserialization(message)
}

/// The failure of a named construct that the input ends in.
fn fail_unterminated_named(what: &str, name: &str) -> (e: AeonDeserializeError)
    ensures
        e@ == Failure::deserialization(msg_unterminated_named(what@, name@)),
{
    let mut message = String::from_str("Unterminated ");
    message.append(what);
    message.append(name);
    AeonDeserializeError::deserialization(message)
}

/// The failure of a macro call or a list that the input ends in.
fn fail_open_ended(call: &Option<String>) -> (e: AeonDeserializeError)
    ensures
        e@ == open_ended(call_view(*call)),
{
    match call {
        Some(name) => fail_unterminated_named("macro call ", name.as_str()),
        None => fail_unterminated("list"),
    }
}

/// The name of the macro that is called, as a character sequence.
pub open spec fn call_view(call: Option<String>) -> Option<Seq<char>> {
    match call {
        Some(name) => Some(name@),
        None => None,
    }
}

impl Deserializer {
    /// The input that is still to be read.
    pub closed spec fn remaining(&self) -> Seq<char> {
        self.lexer.remaining()
    }

    /// A deserializer at the start of `code`.
    pub fn new(code: &str) -> (d: Deserializer)
        ensures
            d.remaining() == code@,
    {
        Deserializer { lexer: Lexer::new(code) }
    }

    /// Reads the whole input as a document.
    pub fn deserialize(&mut self) -> (r: Result<AeonDocument, AeonDeserializeError>)
        ensures
            match parse_document(old(self).remaining(), DocView::empty()) {
                Ok(doc) => r matches Ok(d) && d@ == doc && final(self).remaining().len() == 0,
                Err(e) => r matches Err(error) && error@ == e,
            },
    {
        let mut aeon = AeonDocument::new();
        let ghost goal = parse_document(self.remaining(), DocView::empty());
        loop
            invariant
                goal == parse_document(old(self).remaining(), DocView::empty()),
                parse_document(self.remaining(), aeon@) == goal,
            decreases self.remaining().len(),
        {
            let ghost before = self.remaining();
            match self.lexer.next()? {
                Some(Token::At) => {
                    self.deserialize_macro(&mut aeon)?;
                },
                Some(Token::Identifier(ident)) => {
                    self.deserialize_property(&mut aeon, ident)?;
                },
                Some(it) => {
                    return Err(fail_unexpected_in("main scope", &it));
                },
                None => {
                    return Ok(aeon);
                },
            }
        }
    }

    /// Reads the token that must come next.
    fn require(&mut self, want: &Token) -> (r: Result<(), AeonDeserializeError>)
        requires
            want@ is LeftParenthesis || want@ is Colon,
        ensures
            match expect(old(self).remaining(), want@) {
                Ok(rest) => r is Ok && final(self).remaining() == rest && rest.len() < old(
                    self,
                ).remaining().len(),
                Err(e) => r matches Err(error) && error@ == e,
            },
    {
        match self.lexer.next()? {
            Some(Token::LeftParenthesis) => {
                if let Token::LeftParenthesis = want {
                    Ok(())
                } else {
                    Err(fail_unexpected(&Token::LeftParenthesis))
                }
            },
            Some(Token::Colon) => {
                if let Token::Colon = want {
                    Ok(())
                } else {
                    Err(fail_unexpected(&Token::Colon))
                }
            },
            Some(it) => Err(fail_unexpected(&it)),
            None => Err(fail_end()),
        }
    }

    /// Reads a macro definition, behind its `@`, and registers the macro.
    fn deserialize_macro(&mut self, aeon: &mut AeonDocument) -> (r: Result<
        (),
        AeonDeserializeError,
    >)
        ensures
            match parse_macro(old(self).remaining()) {
                Ok((mac, rest)) => {
                    &&& r is Ok
                    &&& final(self).remaining() == rest
                    &&& rest.len() <= old(self).remaining().len()
                    &&& final(aeon)@ == old(aeon)@.add_macro(mac)
                },
                Err(e) => r matches Err(error) && error@ == e,
            },
    {
        let ident = match self.lexer.next()? {
            Some(Token::Identifier(name)) => name,
            Some(it) => {
                return Err(fail_unexpected(&it));
            },
            None => {
                return Err(fail_end());
            },
        };
        self.require(&Token::LeftParenthesis)?;
        let mut args: Vec<String> = Vec::new();
        let ghost start = self.remaining();
        let ghost goal = parse_macro_args(start, ident@, Seq::empty());
        assert(strings_view(args@) == Seq::<Seq<char>>::empty());
        loop
            invariant
                goal == parse_macro_args(start, ident@, Seq::empty()),
                parse_macro(old(self).remaining()) == match goal {
                    Ok((names, rest)) => Ok((MacroView { name: ident@, args: names }, rest)),
                    Err(e) => Err(e),
                },
                start.len() <= old(self).remaining().len(),
                self.remaining().len() <= start.len(),
                parse_macro_args(self.remaining(), ident@, strings_view(args@)) == goal,
                *aeon == *old(aeon),
            decreases self.remaining().len(),
        {
            let ghost names = strings_view(args@);
            match self.lexer.next()? {
                Some(Token::Identifier(id)) => {
                    args.push(id);
                    assert(strings_view(args@) == names.push(id@));
                },
                Some(Token::RightParenthesis) => {
                    aeon.add_macro(AeonMacro::new(ident, args));
                    return Ok(());
                },
                Some(e) => {
                    return Err(fail_unexpected_in("macro definition", &e));
                },
                None => {
                    return Err(fail_unterminated_named("macro definition ", ident.as_str()));
                },
            }
            match self.lexer.next()? {
                Some(Token::Comma) => {},
                Some(Token::RightParenthesis) => {
                    aeon.add_macro(AeonMacro::new(ident, args));
                    return Ok(());
                },
                Some(e) => {
                    return Err(fail_unexpected_in("macro definition", &e));
                },
                None => {
                    return Err(fail_unterminated_named("macro definition ", ident.as_str()));
                },
            }
        }
    }

    /// Reads a property, behind its name, and registers it.
    fn deserialize_property(&mut self, aeon: &mut AeonDocument, prop_name: String) -> (r: Result<
        (),
        AeonDeserializeError,
    >)
        ensures
            match parse_property(old(self).remaining(), prop_name@, old(aeon)@.macros) {
                Ok((value, rest)) => {
                    &&& r is Ok
                    &&& final(self).remaining() == rest
                    &&& rest.len() <= old(self).remaining().len()
                    &&& final(aeon)@ == old(aeon)@.add_property(prop_name@, value)
                },
                Err(e) => r matches Err(error) && error@ == e,
            },
    {
        self.require(&Token::Colon)?;
        match self.lexer.next()? {
            Some(tok) => {
                let val = self.deserialize_property_value(&tok, aeon)?;
                aeon.add_property(prop_name.as_str(), val);
                Ok(())
            },
            None => Err(fail_unterminated_named("property value ", prop_name.as_str())),
        }
    }

    /// Reads the value that starts with the token `tok`, which was read
    /// already.
    fn deserialize_property_value(&mut self, tok: &Token, aeon: &mut AeonDocument) -> (r: Result<
        AeonValue,
        AeonDeserializeError,
    >)
        ensures
            *final(aeon) == *old(aeon),
            match parse_value(old(self).remaining(), tok@, old(aeon)@.macros) {
                Ok((value, rest)) => {
                    &&& r matches Ok(v)
                    &&& v@ == value
                    &&& final(self).remaining() == rest
                    &&& rest.len() <= old(self).remaining().len()
                },
                Err(e) => r matches Err(error) && error@ == e,
            },
        decreases old(self).remaining().len(), 2nat,
    {
        match tok {
            Token::Identifier(id) => self.deserialize_macro_use(id.clone(), aeon),
            Token::LeftBracket => self.deserialize_list(aeon),
            Token::LeftBrace => self.deserialize_map(aeon),
            maybe => self.deserialize_constants(maybe),
        }
    }

    /// Reads a macro call, behind the macro's name, and applies the macro.
    fn deserialize_macro_use(&mut self, name: String, aeon: &mut AeonDocument) -> (r: Result<
        AeonValue,
        AeonDeserializeError,
    >)
        ensures
            *final(aeon) == *old(aeon),
            match parse_value(
                old(self).remaining(),
                TokenView::Identifier(name@),
                old(aeon)@.macros,
            ) {
                Ok((value, rest)) => {
                    &&& r matches Ok(v)
                    &&& v@ == value
                    &&& final(self).remaining() == rest
                    &&& rest.len() <= old(self).remaining().len()
                },
                Err(e) => r matches Err(error) && error@ == e,
            },
        decreases old(self).remaining().len(), 1nat,
    {
        self.require(&Token::LeftParenthesis)?;
        let values = self.deserialize_items(Some(name.clone()), aeon)?;
        aeon.apply_macro(name, values)
    }

    /// Reads the values of a macro call or of a list, behind the opening
    /// delimiter.
    fn deserialize_items(&mut self, call: Option<String>, aeon: &mut AeonDocument) -> (r: Result<
        Vec<AeonValue>,
        AeonDeserializeError,
    >)
        ensures
            *final(aeon) == *old(aeon),
            match parse_items(
                old(self).remaining(),
                old(aeon)@.macros,
                call_view(call),
                Seq::empty(),
            ) {
                Ok((values, rest)) => {
                    &&& r matches Ok(v)
                    &&& values_view(v@) == values
                    &&& final(self).remaining() == rest
                    &&& rest.len() <= old(self).remaining().len()
                },
                Err(e) => r matches Err(error) && error@ == e,
            },
        decreases old(self).remaining().len(), 0nat,
    {
        let ghost macros = aeon@.macros;
        let ghost goal = parse_items(self.remaining(), macros, call_view(call), Seq::empty());
        let mut values: Vec<AeonValue> = Vec::new();
        assert(values_view(values@) == Seq::<ValueView>::empty());
        loop
            invariant
                *aeon == *old(aeon),
                macros == aeon@.macros,
                goal == parse_items(old(self).remaining(), macros, call_view(call), Seq::empty()),
                self.remaining().len() <= old(self).remaining().len(),
                parse_items(self.remaining(), macros, call_view(call), values_view(values@))
                    == goal,
            decreases self.remaining().len(),
        {
            let ghost read = values_view(values@);
            match self.lexer.next()? {
                None => {
                    return Err(fail_open_ended(&call));
                },
                Some(tok) => {
                    let closes = match (&tok, &call) {
                        (Token::RightParenthesis, Some(_)) => true,
                        (Token::RightBracket, None) => true,
                        _ => false,
                    };
                    if closes {
                        return Ok(values);
                    }
                    let value = self.deserialize_property_value(&tok, aeon)?;
                    values.push(value);
                    assert(values_view(values@) == read.push(value@));
                },
            }
            match self.lexer.next()? {
                None => {
                    return Err(fail_open_ended(&call));
                },
                Some(Token::Comma) => {},
                Some(tok) => {
                    let closes = match (&tok, &call) {
                        (Token::RightParenthesis, Some(_)) => true,
                        (Token::RightBracket, None) => true,
                        _ => false,
                    };
                    if closes {
                        return Ok(values);
                    }
                    return Err(
                        fail_unexpected_in(
                            if call.is_some() {
                                "macro call"
                            } else {
                                "list"
                            },
                            &tok,
                        ),
                    );
                },
            }
        }
    }

    /// The value that a literal's token stands for.
    fn deserialize_constants(&mut self, tok: &Token) -> (r: Result<AeonValue, AeonDeserializeError>)
        requires
            !(tok@ is Identifier),
            !(tok@ is LeftBracket),
            !(tok@ is LeftBrace),
        ensures
            final(self).remaining() == old(self).remaining(),
            forall|macros: Seq<(Seq<char>, MacroView)>|
                match #[trigger] parse_value(old(self).remaining(), tok@, macros) {
                    Ok((value, rest)) => {
                        &&& r matches Ok(v)
                        &&& v@ == value
                        &&& rest == old(self).remaining()
                    },
                    Err(e) => r matches Err(error) && error@ == e,
                },
    {
        match tok {
            Token::String(s) => Ok(AeonValue::String(s.clone())),
            Token::Integer(i) => Ok(AeonValue::Integer(*i)),
            Token::Double(d) => Ok(AeonValue::Double(d.clone())),
            Token::True => Ok(AeonValue::Bool(true)),
            Token::False => Ok(AeonValue::Bool(false)),
            Token::Nil => Ok(AeonValue::Nil),
            s => Err(fail_unexpected_in("property value", s)),
        }
    }

    /// Reads a list, behind its opening bracket.
    fn deserialize_list(&mut self, aeon: &mut AeonDocument) -> (r: Result<
        AeonValue,
        AeonDeserializeError,
    >)
        ensures
            *final(aeon) == *old(aeon),
            match parse_value(old(self).remaining(), TokenView::LeftBracket, old(aeon)@.macros) {
                Ok((value, rest)) => {
                    &&& r matches Ok(v)
                    &&& v@ == value
                    &&& final(self).remaining() == rest
                    &&& rest.len() <= old(self).remaining().len()
                },
                Err(e) => r matches Err(error) && error@ == e,
            },
        decreases old(self).remaining().len(), 1nat,
    {
        let values = self.deserialize_items(None, aeon)?;
        Ok(AeonValue::List(values))
    }

    /// Reads the value of a brace map's entry, behind the key.
    fn deserialize_map_entry(&mut self, key: String, aeon: &mut AeonDocument) -> (r: Result<
        (String, AeonValue),
        AeonDeserializeError,
    >)
        ensures
            *final(aeon) == *old(aeon),
            match parse_entry(old(self).remaining(), key@, old(aeon)@.macros) {
                Ok((value, rest)) => {
                    &&& r matches Ok(entry)
                    &&& entry.0@ == key@
                    &&& entry.1@ == value
                    &&& final(self).remaining() == rest
                    &&& rest.len() <= old(self).remaining().len()
                },
                Err(e) => r matches Err(error) && error@ == e,
            },
        decreases old(self).remaining().len(), 3nat,
    {
        self.require(&Token::Colon)?;
        match self.lexer.next()? {
            Some(next_tok) => {
                let val = self.deserialize_property_value(&next_tok, aeon)?;
                Ok((key, val))
            },
            None => Err(fail_unterminated_named("map with key ", key.as_str())),
        }
    }

    /// Reads a brace map, behind its opening brace.
    fn deserialize_map(&mut self, aeon: &mut AeonDocument) -> (r: Result<
        AeonValue,
        AeonDeserializeError,
    >)
        ensures
            *final(aeon) == *old(aeon),
            match parse_value(old(self).remaining(), TokenView::LeftBrace, old(aeon)@.macros) {
                Ok((value, rest)) => {
                    &&& r matches Ok(v)
                    &&& v@ == value
                    &&& final(self).remaining() == rest
                    &&& rest.len() <= old(self).remaining().len()
                },
                Err(e) => r matches Err(error) && error@ == e,
            },
        decreases old(self).remaining().len(), 1nat,
    {
        let ghost macros = aeon@.macros;
        let ghost goal = parse_entries(self.remaining(), macros, Seq::empty());
        let mut values = AeonMap::new();
        loop
            invariant
                *aeon == *old(aeon),
                macros == aeon@.macros,
                goal == parse_entries(old(self).remaining(), macros, Seq::empty()),
                self.remaining().len() <= old(self).remaining().len(),
                parse_entries(self.remaining(), macros, values@) == goal,
            decreases self.remaining().len(),
        {
            match self.lexer.next()? {
                Some(Token::String(key)) => {
                    let entry = self.deserialize_map_entry(key, aeon)?;
                    values.insert(entry.0, entry.1);
                },
                Some(Token::Identifier(key)) => {
                    let entry = self.deserialize_map_entry(key, aeon)?;
                    values.insert(entry.0, entry.1);
                },
                Some(Token::RightBrace) => {
                    return Ok(AeonValue::Object(values));
                },
                Some(e) => {
                    let mut message = String::from_str("Unexpected token in ");
                    message.append("map");
                    message.append(": ");
                    message.append(e.describe().as_str());
                    message.append(", expected string key");
                    return Err(AeonDeserializeError::deserialization(message));
                },
                None => {
                    return Err(fail_unterminated("map"));
                },
            }
            match self.lexer.next()? {
                Some(Token::Comma) => {},
                Some(Token::RightBrace) => {
                    return Ok(AeonValue::Object(values));
                },
                Some(e) => {
                    return Err(fail_unexpected_in("map", &e));
                },
                None => {
                    return Err(fail_unterminated("map"));
                },
            }
        }
    }
}

} // verus!
