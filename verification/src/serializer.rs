//! The serializer: from a document to indented text, objects written as
//! macro calls where a macro fits.
use crate::document::{
    first_fit, lemma_first_fit, AeonDocument, AeonMacro, AeonProperty, DocView, MacroView,
};
use crate::error::Failure;
use crate::lexer::next_token;
use crate::lexer_laws::{
    ends_number, lemma_integer_value, lemma_token_double, lemma_token_integer,
};
use crate::text::{
    int_text, is_ident_char, is_letter, push_all, push_int, spaces, spec_is_digit,
    spec_is_ident_char, spec_is_letter, to_chars,
};
use crate::token::TokenView;
use crate::value::{
    entries_view, find_key, is_double_literal, is_double_literal_at, lemma_find_key, values_view,
    AeonMap, AeonValue, ValueView,
};
use vstd::prelude::*;
use vstd::string::StringExecFns;

verus! {

/// How a character of a string's content is written inside a literal.
pub open spec fn escape_char(c: char) -> Seq<char> {
    if c == '\\' {
        seq!['\\', '\\']
    } else if c == '\r' {
        seq!['\\', 'r']
    } else if c == '\n' {
        seq!['\\', 'n']
    } else if c == '\t' {
        seq!['\\', 't']
    } else if c == '"' {
        seq!['\\', '"']
    } else {
        seq![c]
    }
}

/// A string's content as written inside a literal.
pub open spec fn escape(s: Seq<char>) -> Seq<char>
    decreases s.len(),
{
    if s.len() == 0 {
        Seq::empty()
    } else {
        escape_char(s[0]) + escape(s.skip(1))
    }
}

/// Whether `s` can be written as a bare identifier: a letter, then letters,
/// digits and underscores, and not one of the keywords.
pub open spec fn valid_identifier(s: Seq<char>) -> bool {
    &&& s.len() > 0
    &&& spec_is_letter(s[0])
    &&& forall|i: int| 0 <= i < s.len() ==> spec_is_ident_char(#[trigger] s[i])
    &&& s != "nil"@
    &&& s != "true"@
    &&& s != "false"@
}

/// An object's key as written in a brace map: bare where it is a valid
/// identifier, else as a string literal.
pub open spec fn key_text(key: Seq<char>) -> Seq<char> {
    if valid_identifier(key) {
        key
    } else {
        seq!['"'] + escape(key) + seq!['"']
    }
}

/// The indentation before a value: none where the value goes on a line that
/// was begun for it.
pub open spec fn lead(indent: nat, skip: bool) -> Seq<char> {
    if skip {
        Seq::empty()
    } else {
        spaces(indent)
    }
}

/// Whether one of the values is a list.
pub open spec fn has_list(entries: Seq<(Seq<char>, ValueView)>) -> bool {
    exists|i: int| 0 <= i < entries.len() && (#[trigger] entries[i]).1 is List
}

/// The text of a value at the given indentation: the indentation that is
/// due, then the value itself.
pub open spec fn value_text(
    v: ValueView,
    macros: Seq<(Seq<char>, MacroView)>,
    indent: nat,
    skip: bool,
) -> Seq<char>
    decreases v, 1nat, 0nat,
{
    lead(indent, skip) + body_text(v, macros, indent)
}

/// The text of a list whose own line is indented by `indent`: the items four
/// spaces deeper, one per line; `[]` where it is empty.
pub open spec fn list_text(
    items: Seq<ValueView>,
    macros: Seq<(Seq<char>, MacroView)>,
    indent: nat,
) -> Seq<char>
    decreases items, 1nat, 0nat,
{
    seq!['['] + items_text(items, macros, indent + 4, 0) + (if items.len() > 0 {
        seq!['\n'] + spaces(indent)
    } else {
        Seq::empty()
    }) + seq![']']
}

/// The text of an object as a call of the macro `mac`. The arguments stand
/// on one line, unless one of the object's values is a list: then each
/// stands on a line of its own.
pub open spec fn call_text(
    entries: Seq<(Seq<char>, ValueView)>,
    mac: MacroView,
    macros: Seq<(Seq<char>, MacroView)>,
    indent: nat,
) -> Seq<char>
    decreases entries, 1nat, 0nat,
{
    mac.name + seq!['('] + (if has_list(entries) {
        args_text(entries, mac.args, macros, indent + 4, true, 0) + seq!['\n'] + spaces(indent)
    } else {
        args_text(entries, mac.args, macros, indent + 4, false, 0)
    }) + seq![')']
}

/// The text of an object as a brace map.
pub open spec fn map_text(
    entries: Seq<(Seq<char>, ValueView)>,
    macros: Seq<(Seq<char>, MacroView)>,
    indent: nat,
) -> Seq<char>
    decreases entries, 1nat, 0nat,
{
    seq!['{'] + entries_text(entries, macros, indent, 0) + (if entries.len() > 0 {
        seq!['\n'] + spaces(indent)
    } else {
        Seq::empty()
    }) + seq!['}']
}

/// The text of a value whose line is indented by `indent`. An object is
/// written as a call of the first macro that fits it, or as a brace map
/// where none does.
pub open spec fn body_text(v: ValueView, macros: Seq<(Seq<char>, MacroView)>, indent: nat) -> Seq<
    char,
>
    decreases v, 0nat, 0nat,
{
    match v {
        ValueView::Nil => "nil"@,
        ValueView::Bool(b) => if b {
            "true"@
        } else {
            "false"@
        },
        ValueView::String(s) => seq!['"'] + escape(s) + seq!['"'],
        ValueView::Integer(i) => int_text(i as int),
        ValueView::Double(text) => text,
        ValueView::List(items) => list_text(items, macros, indent),
        ValueView::Object(entries) => match first_fit(macros, entries) {
            Some(k) => if 0 <= k < macros.len() {
                call_text(entries, macros[k].1, macros, indent)
            } else {
                Seq::empty()
            },
            None => map_text(entries, macros, indent),
        },
    }
}

/// The text of a list's items from index `i` on: one per line, separated by
/// commas.
pub open spec fn items_text(
    items: Seq<ValueView>,
    macros: Seq<(Seq<char>, MacroView)>,
    indent: nat,
    i: nat,
) -> Seq<char>
    decreases items, 0nat, items.len() - i,
{
    if i >= items.len() {
        Seq::empty()
    } else {
        (if i > 0 {
            seq![',']
        } else {
            Seq::empty()
        }) + seq!['\n'] + value_text(items[i as int], macros, indent, false) + items_text(
            items,
            macros,
            indent,
            i + 1,
        )
    }
}

/// The text of a macro call's arguments from index `i` on: the values bound
/// to the argument names, in the macro's order. With `lines` each argument
/// after the first starts a line of its own.
pub open spec fn args_text(
    entries: Seq<(Seq<char>, ValueView)>,
    args: Seq<Seq<char>>,
    macros: Seq<(Seq<char>, MacroView)>,
    indent: nat,
    lines: bool,
    i: nat,
) -> Seq<char>
    decreases entries, 0nat, args.len() - i,
{
    if i >= args.len() {
        Seq::empty()
    } else {
        (if i == 0 {
            Seq::empty()
        } else if lines {
            seq![',', '\n']
        } else {
            seq![',', ' ']
        }) + (match find_key(entries, args[i as int]) {
            Some(k) => if 0 <= k < entries.len() {
                value_text(entries[k].1, macros, indent, !lines || i == 0)
            } else {
                Seq::empty()
            },
            None => Seq::empty(),
        }) + args_text(entries, args, macros, indent, lines, i + 1)
    }
}

/// The text of a brace map's entries from index `i` on.
pub open spec fn entries_text(
    entries: Seq<(Seq<char>, ValueView)>,
    macros: Seq<(Seq<char>, MacroView)>,
    indent: nat,
    i: nat,
) -> Seq<char>
    decreases entries, 0nat, entries.len() - i,
{
    if i >= entries.len() {
        Seq::empty()
    } else {
        (if i > 0 {
            seq![',', ' ']
        } else {
            Seq::empty()
        }) + seq!['\n'] + key_text(entries[i as int].0) + seq![':', ' '] + value_text(
            entries[i as int].1,
            macros,
            indent,
            true,
        ) + entries_text(entries, macros, indent, i + 1)
    }
}

/// The argument names from index `i` on, separated by a comma and a space.
pub open spec fn names_text(args: Seq<Seq<char>>, i: nat) -> Seq<char>
    decreases args.len() - i,
{
    if i >= args.len() {
        Seq::empty()
    } else {
        (if i > 0 {
            seq![',', ' ']
        } else {
            Seq::empty()
        }) + args[i as int] + names_text(args, i + 1)
    }
}

/// The line that defines a macro: `@name(arg, arg, ...)`.
pub open spec fn macro_text(mac: MacroView) -> Seq<char> {
    seq!['@'] + mac.name + seq!['('] + names_text(mac.args, 0) + seq![')', '\n']
}

/// The definitions of the macros from index `i` on, one per line.
pub open spec fn macros_text(macros: Seq<(Seq<char>, MacroView)>, i: nat) -> Seq<char>
    decreases macros.len() - i,
{
    if i >= macros.len() {
        Seq::empty()
    } else {
        macro_text(macros[i as int].1) + macros_text(macros, i + 1)
    }
}

/// A property: its name, a colon and its value.
pub open spec fn property_text(
    name: Seq<char>,
    value: ValueView,
    macros: Seq<(Seq<char>, MacroView)>,
    indent: nat,
    skip: bool,
) -> Seq<char> {
    name + seq![':', ' '] + value_text(value, macros, indent, skip)
}

/// The properties from index `i` on, each followed by an empty line.
pub open spec fn properties_text(doc: DocView, i: nat) -> Seq<char>
    decreases doc.properties.len() - i,
{
    if i >= doc.properties.len() {
        Seq::empty()
    } else {
        property_text(
            doc.properties[i as int].0,
            doc.properties[i as int].1,
            doc.macros,
            0,
            false,
        ) + seq!['\n', '\n'] + properties_text(doc, i + 1)
    }
}

/// The text of a document: the macro definitions in registration order, an
/// empty line if there is any, then the properties in registration order.
pub open spec fn document_text(doc: DocView) -> Seq<char> {
    macros_text(doc.macros, 0) + (if doc.macros.len() > 0 {
        seq!['\n']
    } else {
        Seq::empty()
    }) + properties_text(doc, 0)
}

/// Compaction: an object that one of the macros fits is written as a call
/// of the first macro that fits it, which begins with the macro's name and
/// an opening parenthesis.
pub proof fn law_compaction_call(
    entries: Seq<(Seq<char>, ValueView)>,
    macros: Seq<(Seq<char>, MacroView)>,
    k: int,
    indent: nat,
)
    requires
        0 <= k < macros.len(),
        macros[k].1.fits(entries),
        forall|j: int| 0 <= j < k ==> !(#[trigger] macros[j]).1.fits(entries),
    ensures
        body_text(ValueView::Object(entries), macros, indent) == call_text(
            entries,
            macros[k].1,
            macros,
            indent,
        ),
        call_text(entries, macros[k].1, macros, indent).take(macros[k].1.name.len() as int + 1)
            == macros[k].1.name + seq!['('],
        call_text(entries, macros[k].1, macros, indent).last() == ')',
{
    lemma_first_fit(macros, entries);
    let text = call_text(entries, macros[k].1, macros, indent);
    assert(text.take(macros[k].1.name.len() as int + 1) == macros[k].1.name + seq!['(']);
}

/// Compaction: an object that none of the macros fits, as when the macro
/// that fitted it was taken away, is written as a brace map.
pub proof fn law_compaction_map(
    entries: Seq<(Seq<char>, ValueView)>,
    macros: Seq<(Seq<char>, MacroView)>,
    indent: nat,
)
    requires
        forall|j: int| 0 <= j < macros.len() ==> !(#[trigger] macros[j]).1.fits(entries),
    ensures
        body_text(ValueView::Object(entries), macros, indent) == map_text(entries, macros, indent),
        map_text(entries, macros, indent)[0] == '{',
        map_text(entries, macros, indent).last() == '}',
{
    lemma_first_fit(macros, entries);
}

/// Whether `text` holds a decimal point at index `k` and nowhere else, with
/// a digit on each side of it.
pub open spec fn one_point(text: Seq<char>, k: int) -> bool {
    &&& 0 < k < text.len() - 1
    &&& text[k] == '.'
    &&& spec_is_digit(text[k - 1])
    &&& spec_is_digit(text[k + 1])
    &&& forall|j: int| 0 <= j < text.len() && j != k ==> #[trigger] text[j] != '.'
}

/// Numeric formatting: a double is written as its literal, which holds
/// exactly one decimal point, with a digit on each side, and which the lexer
/// reads back as the same double. An integer is written without a decimal
/// point, and the lexer reads it back as the same integer.
pub proof fn law_decimal_point(
    text: Seq<char>,
    i: i64,
    macros: Seq<(Seq<char>, MacroView)>,
    indent: nat,
    t: Seq<char>,
)
    requires
        is_double_literal(text),
        ends_number(t),
    ensures
        body_text(ValueView::Double(text), macros, indent) == text,
        exists|k: int| one_point(text, k),
        next_token(body_text(ValueView::Double(text), macros, indent) + t) == Ok::<_, Failure>(
            Some((TokenView::Double(text), t)),
        ),
        !body_text(ValueView::Integer(i), macros, indent).contains('.'),
        next_token(body_text(ValueView::Integer(i), macros, indent) + t) == Ok::<_, Failure>(
            Some((TokenView::Integer(i), t)),
        ),
{
    let k = choose|k: int| is_double_literal_at(text, k);
    assert forall|j: int| 0 <= j < text.len() && j != k implies #[trigger] text[j] != '.' by {
        if j > 0 {
            assert(spec_is_digit(text[j]));
        }
    }
    assert(spec_is_digit(text[k + 1]));
    assert(one_point(text, k));
    lemma_token_double(text, t);
    lemma_integer_value(i);
    lemma_token_integer(i, t);
    let digits = int_text(i as int);
    assert forall|j: int| 0 <= j < digits.len() implies digits[j] != '.' by {
        if j > 0 {
            assert(spec_is_digit(digits[j]));
        }
    }
}

/// Decides `valid_identifier`.
pub fn is_valid_identifier(s: &str) -> (b: bool)
    ensures
        b == valid_identifier(s@),
{
    let chars = to_chars(s);
    if chars.len() == 0 || !is_letter(chars[0]) {
        return false;
    }
    let owned = s.to_owned();
    if owned == String::from_str("nil") || owned == String::from_str("true") || owned
        == String::from_str("false") {
        return false;
    }
    let mut i: usize = 0;
    while i < chars.len()
        invariant
            i <= chars.len(),
            chars@ == s@,
            forall|j: int| 0 <= j < i ==> spec_is_ident_char(#[trigger] chars@[j]),
        decreases chars.len() - i,
    {
        if !is_ident_char(chars[i]) {
            assert(!spec_is_ident_char(s@[i as int]));
            return false;
        }
        i += 1;
    }
    true
}

/// Appends a string's content as written inside a literal.
fn push_escaped(out: &mut String, content: &str)
    ensures
        final(out)@ == old(out)@ + escape(content@),
{
    let chars = to_chars(content);
    let mut i: usize = 0;
    assert(chars@.skip(0) == chars@);
    while i < chars.len()
        invariant
            i <= chars.len(),
            out@ + escape(chars@.skip(i as int)) == old(out)@ + escape(chars@),
        decreases chars.len() - i,
    {
        let x = chars[i];
        let ghost before = out@;
        let ghost rest = chars@.skip(i as int);
        assert(rest.skip(1) == chars@.skip(i + 1));
        assert(rest[0] == x);
        if x == '\\' {
            out.push('\\');
            out.push('\\');
        } else if x == '\r' {
            out.push('\\');
            out.push('r');
        } else if x == '\n' {
            out.push('\\');
            out.push('n');
        } else if x == '\t' {
            out.push('\\');
            out.push('t');
        } else if x == '"' {
            out.push('\\');
            out.push('"');
        } else {
            out.push(x);
        }
        assert(out@ == before + escape_char(x));
        assert(out@ + escape(rest.skip(1)) == before + escape(rest));
        i += 1;
    }
    assert(escape(chars@.skip(chars@.len() as int)) == Seq::<char>::empty());
    assert(out@ + Seq::<char>::empty() == out@);
}

/// Decides `has_list`.
fn contains_list(map: &AeonMap) -> (b: bool)
    ensures
        b == has_list(map@),
{
    let entries = map.entries();
    let mut i: usize = 0;
    while i < entries.len()
        invariant
            i <= entries.len(),
            entries_view(entries@) == map@,
            forall|j: int| 0 <= j < i ==> !((#[trigger] map@[j]).1 is List),
        decreases entries.len() - i,
    {
        assert(map@[i as int].1 == entries@[i as int].1@);
        if let AeonValue::List(_) = &entries[i].1 {
            return true;
        }
        i += 1;
    }
    false
}

/// The serializer that writes indented, human-readable text.
pub struct PrettySerializer {
    indent: Vec<char>,
    indent_skip: bool,
}

impl PrettySerializer {
    /// Whether the serializer is in a valid state: its indentation is made
    /// of spaces.
    pub closed spec fn wf(&self) -> bool {
        forall|i: int| 0 <= i < self.indent@.len() ==> self.indent@[i] == ' '
    }

    /// The current indentation, in spaces.
    pub closed spec fn depth(&self) -> nat {
        self.indent@.len()
    }

    /// Whether the next value goes on a line that was begun for it, so that
    /// it is not indented.
    pub closed spec fn skips(&self) -> bool {
        self.indent_skip
    }

    pub fn new() -> (r: Self)
        ensures
            r.wf(),
            r.depth() == 0,
            !r.skips(),
    {
        Self { indent: Vec::new(), indent_skip: false }
    }

    /// Sets whether the next value goes on a line that was begun for it.
    fn set_skip(&mut self, skip: bool)
        requires
            old(self).wf(),
        ensures
            final(self).wf(),
            final(self).depth() == old(self).depth(),
            final(self).skips() == skip,
    {
        self.indent_skip = skip;
    }

    /// Writes the indentation that is due before a value.
    fn indent_me(&mut self, s: &mut String)
        requires
            old(self).wf(),
        ensures
            final(self).wf(),
            final(s)@ == old(s)@ + lead(old(self).depth(), old(self).skips()),
            final(self).depth() == old(self).depth(),
            !final(self).skips(),
    {
        if !self.indent_skip {
            push_all(s, &self.indent);
            assert(self.indent@ == spaces(self.indent@.len()));
        } else {
            self.indent_skip = false;
            assert(s@ + Seq::<char>::empty() == s@);
        }
    }

    /// Indents by four more spaces.
    fn shift(&mut self)
        requires
            old(self).wf(),
        ensures
            final(self).wf(),
            final(self).depth() == old(self).depth() + 4,
            final(self).skips() == old(self).skips(),
    {
        self.indent.push(' ');
        self.indent.push(' ');
        self.indent.push(' ');
        self.indent.push(' ');
    }

    /// Indents by four spaces fewer.
    fn unshift(&mut self)
        requires
            old(self).wf(),
            old(self).depth() >= 4,
        ensures
            final(self).wf(),
            final(self).depth() == old(self).depth() - 4,
            final(self).skips() == old(self).skips(),
    {
        let shorter = self.indent.len() - 4;
        self.indent.truncate(shorter);
    }

    /// The text of a document.
    pub fn serialize_aeon(obj: &AeonDocument) -> (r: String)
        ensures
            r@ == document_text(obj@),
    {
        let mut ser = PrettySerializer::new();
        let mut s = String::new();
        let mut i: usize = 0;
        while i < obj.macros.len()
            invariant
                i <= obj.macros.len(),
                ser.wf(),
                ser.depth() == 0,
                !ser.skips(),
                s@ + macros_text(obj@.macros, i as nat) == macros_text(obj@.macros, 0),
            decreases obj.macros.len() - i,
        {
            let ghost before = s@;
            ser.serialize_macro(&obj.macros[i], &mut s);
            assert(s@ + macros_text(obj@.macros, (i + 1) as nat) == before + macros_text(
                obj@.macros,
                i as nat,
            ));
            i += 1;
        }
        assert(s@ + Seq::<char>::empty() == s@);
        if obj.macros.len() > 0 {
            s.push('\n');
        }
        let ghost head = s@;
        let mut j: usize = 0;
        while j < obj.properties.len()
            invariant
                j <= obj.properties.len(),
                ser.wf(),
                ser.depth() == 0,
                !ser.skips(),
                s@ + properties_text(obj@, j as nat) == head + properties_text(obj@, 0),
            decreases obj.properties.len() - j,
        {
            let ghost before = s@;
            ser.serialize_property(obj, &obj.properties[j], &mut s);
            s.push('\n');
            s.push('\n');
            assert(s@ + properties_text(obj@, (j + 1) as nat) == before + properties_text(
                obj@,
                j as nat,
            ));
            j += 1;
        }
        assert(s@ + Seq::<char>::empty() == s@);
        assert(s@ == document_text(obj@));
        s
    }

    /// Writes the line that defines a macro.
    pub fn serialize_macro(&mut self, mac: &AeonMacro, s: &mut String)
        requires
            old(self).wf(),
        ensures
            final(self).wf(),
            final(s)@ == old(s)@ + macro_text(mac@),
            final(self).depth() == old(self).depth(),
            final(self).skips() == old(self).skips(),
    {
        s.push('@');
        s.append(mac.name.as_str());
        s.push('(');
        let ghost head = s@;
        let mut arg: usize = 0;
        while arg < mac.args.len()
            invariant
                arg <= mac.args.len(),
                s@ + names_text(mac@.args, arg as nat) == head + names_text(mac@.args, 0),
            decreases mac.args.len() - arg,
        {
            let ghost before = s@;
            if arg != 0 {
                s.push(',');
                s.push(' ');
            }
            s.append(mac.args[arg].as_str());
            assert(s@ + names_text(mac@.args, (arg + 1) as nat) == before + names_text(
                mac@.args,
                arg as nat,
            ));
            arg += 1;
        }
        assert(s@ + Seq::<char>::empty() == s@);
        s.push(')');
        s.push('\n');
        assert(s@ == old(s)@ + macro_text(mac@));
    }

    /// Writes a property: its name, a colon and its value.
    pub fn serialize_property(
        &mut self,
        obj: &AeonDocument,
        property: &AeonProperty,
        s: &mut String,
    )
        requires
            old(self).wf(),
        ensures
            final(self).wf(),
            final(s)@ == old(s)@ + property_text(
                property.name@,
                property.value@,
                obj@.macros,
                old(self).depth(),
                old(self).skips(),
            ),
            final(self).depth() == old(self).depth(),
            !final(self).skips(),
    {
        s.append(property.name.as_str());
        s.push(':');
        s.push(' ');
        self.serialize_value(obj, &property.value, s);
        assert(s@ == old(s)@ + property_text(
            property.name@,
            property.value@,
            obj@.macros,
            old(self).depth(),
            old(self).skips(),
        ));
    }

    /// Writes a value at the current indentation.
    pub fn serialize_value(&mut self, obj: &AeonDocument, value: &AeonValue, s: &mut String)
        requires
            old(self).wf(),
        ensures
            final(self).wf(),
            final(s)@ == old(s)@ + value_text(
                value@,
                obj@.macros,
                old(self).depth(),
                old(self).skips(),
            ),
            final(self).depth() == old(self).depth(),
            !final(self).skips(),
        decreases value@, 1nat,
    {
        let ghost indent = self.depth();
        let ghost macros = obj@.macros;
        self.indent_me(s);
        let ghost head = s@;
        match value {
            AeonValue::Nil => {
                s.append("nil");
            },
            AeonValue::Bool(v) => {
                s.append(
                    if *v {
                        "true"
                    } else {
                        "false"
                    },
                );
            },
            AeonValue::String(v) => {
                s.push('"');
                push_escaped(s, v.as_str());
                s.push('"');
                assert(s@ == head + (seq!['"'] + escape(v@) + seq!['"']));
            },
            AeonValue::Integer(v) => {
                push_int(s, *v);
            },
            AeonValue::Double(v) => {
                s.append(v.as_str());
            },
            AeonValue::List(v) => {
                assert(value@ == ValueView::List(values_view(v@)));
                assert(decreases_to!(value@ => value@->List_0));
                self.serialize_list(obj, v, s);
            },
            AeonValue::Object(v) => {
                assert(value@ == ValueView::Object(v@));
                assert(decreases_to!(value@ => value@->Object_0));
                self.serialize_object(obj, v, s);
            },
        }
        assert(s@ == head + body_text(value@, macros, indent));
        assert(s@ == old(s)@ + (lead(indent, old(self).skips()) + body_text(value@, macros, indent)));
    }

    /// Writes a list: the items four spaces deeper, one per line.
    fn serialize_list(&mut self, obj: &AeonDocument, items: &Vec<AeonValue>, s: &mut String)
        requires
            old(self).wf(),
            !old(self).skips(),
        ensures
            final(self).wf(),
            final(s)@ == old(s)@ + list_text(values_view(items@), obj@.macros, old(self).depth()),
            final(self).depth() == old(self).depth(),
            !final(self).skips(),
        decreases values_view(items@), 1nat,
    {
        let ghost indent = self.depth();
        let ghost macros = obj@.macros;
        s.push('[');
        self.shift();
        self.serialize_items(obj, items, s);
        self.unshift();
        if items.len() > 0 {
            s.push('\n');
            self.indent_me(s);
        }
        s.push(']');
        assert(s@ == old(s)@ + (seq!['['] + items_text(values_view(items@), macros, indent + 4, 0)
            + (if items@.len() > 0 {
            seq!['\n'] + spaces(indent)
        } else {
            Seq::empty()
        }) + seq![']']));
    }

    /// Writes an object: as a call of the first macro that fits it, or as a
    /// brace map where none does.
    fn serialize_object(&mut self, obj: &AeonDocument, map: &AeonMap, s: &mut String)
        requires
            old(self).wf(),
            !old(self).skips(),
        ensures
            final(self).wf(),
            final(s)@ == old(s)@ + body_text(
                ValueView::Object(map@),
                obj@.macros,
                old(self).depth(),
            ),
            final(self).depth() == old(self).depth(),
            !final(self).skips(),
        decreases map@, 2nat,
    {
        let ghost indent = self.depth();
        let ghost macros = obj@.macros;
        proof {
            lemma_first_fit(macros, map@);
        }
        if let Some(m) = obj.try_get_macro(map) {
            s.append(m.name.as_str());
            s.push('(');
            self.shift();
            let lines = contains_list(map);
            self.serialize_args(obj, map, m, lines, s);
            self.unshift();
            if lines {
                s.push('\n');
                self.indent_me(s);
            }
            s.push(')');
            assert(s@ == old(s)@ + call_text(map@, m@, macros, indent));
        } else {
            s.push('{');
            self.serialize_entries(obj, map, s);
            if !map.is_empty() {
                s.push('\n');
                self.indent_me(s);
            }
            s.push('}');
            assert(s@ == old(s)@ + map_text(map@, macros, indent));
        }
    }

    /// Writes a list's items, one per line.
    fn serialize_items(&mut self, obj: &AeonDocument, items: &Vec<AeonValue>, s: &mut String)
        requires
            old(self).wf(),
            !old(self).skips(),
        ensures
            final(self).wf(),
            final(s)@ == old(s)@ + items_text(
                values_view(items@),
                obj@.macros,
                old(self).depth(),
                0,
            ),
            final(self).depth() == old(self).depth(),
            !final(self).skips(),
        decreases values_view(items@), 0nat,
    {
        let ghost all = values_view(items@);
        let ghost macros = obj@.macros;
        let ghost indent = self.depth();
        let mut i: usize = 0;
        while i < items.len()
            invariant
                i <= items.len(),
                all == values_view(items@),
                macros == obj@.macros,
                self.wf(),
                self.depth() == indent,
                !self.skips(),
                s@ + items_text(all, macros, indent, i as nat) == old(s)@ + items_text(
                    all,
                    macros,
                    indent,
                    0,
                ),
            decreases items.len() - i,
        {
            let ghost before = s@;
            if i != 0 {
                s.push(',');
            }
            s.push('\n');
            assert(all[i as int] == items@[i as int]@);
            self.serialize_value(obj, &items[i], s);
            assert(s@ + items_text(all, macros, indent, (i + 1) as nat) == before + items_text(
                all,
                macros,
                indent,
                i as nat,
            ));
            i += 1;
        }
        assert(s@ + Seq::<char>::empty() == s@);
    }

    /// Writes a macro call's arguments: the values bound to the macro's
    /// argument names, in the macro's order.
    fn serialize_args(
        &mut self,
        obj: &AeonDocument,
        map: &AeonMap,
        mac: &AeonMacro,
        lines: bool,
        s: &mut String,
    )
        requires
            old(self).wf(),
        ensures
            final(self).wf(),
            final(s)@ == old(s)@ + args_text(
                map@,
                mac@.args,
                obj@.macros,
                old(self).depth(),
                lines,
                0,
            ),
            final(self).depth() == old(self).depth(),
            final(self).skips() == old(self).skips(),
        decreases map@, 1nat,
    {
        let ghost macros = obj@.macros;
        let ghost indent = self.depth();
        let ghost args = mac@.args;
        let skip = self.indent_skip;
        let mut i: usize = 0;
        while i < mac.args.len()
            invariant
                i <= mac.args.len(),
                args == mac@.args,
                macros == obj@.macros,
                self.wf(),
                self.depth() == indent,
                s@ + args_text(map@, args, macros, indent, lines, i as nat) == old(s)@ + args_text(
                    map@,
                    args,
                    macros,
                    indent,
                    lines,
                    0,
                ),
            decreases mac.args.len() - i,
        {
            let ghost before = s@;
            if i != 0 {
                s.push(',');
                s.push(
                    if lines {
                        '\n'
                    } else {
                        ' '
                    },
                );
            }
            proof {
                lemma_find_key(map@, args[i as int]);
            }
            match map.get(mac.args[i].as_str()) {
                Some(v) => {
                    self.set_skip(!lines || i == 0);
                    self.serialize_value(obj, v, s);
                },
                None => {
                    assert(s@ + Seq::<char>::empty() == s@);
                },
            }
            assert(s@ + args_text(map@, args, macros, indent, lines, (i + 1) as nat) == before
                + args_text(map@, args, macros, indent, lines, i as nat));
            i += 1;
        }
        assert(s@ + Seq::<char>::empty() == s@);
        self.set_skip(skip);
    }

    /// Writes a brace map's entries, one per line.
    fn serialize_entries(&mut self, obj: &AeonDocument, map: &AeonMap, s: &mut String)
        requires
            old(self).wf(),
        ensures
            final(self).wf(),
            final(s)@ == old(s)@ + entries_text(map@, obj@.macros, old(self).depth(), 0),
            final(self).depth() == old(self).depth(),
            final(self).skips() == old(self).skips(),
        decreases map@, 1nat,
    {
        let ghost macros = obj@.macros;
        let ghost indent = self.depth();
        let entries = map.entries();
        let skip = self.indent_skip;
        let mut i: usize = 0;
        while i < entries.len()
            invariant
                i <= entries.len(),
                entries_view(entries@) == map@,
                macros == obj@.macros,
                self.wf(),
                self.depth() == indent,
                s@ + entries_text(map@, macros, indent, i as nat) == old(s)@ + entries_text(
                    map@,
                    macros,
                    indent,
                    0,
                ),
            decreases entries.len() - i,
        {
            let ghost before = s@;
            let entry = &entries[i];
            assert(map@[i as int] == (entry.0@, entry.1@));
            if i != 0 {
                s.push(',');
                s.push(' ');
            }
            s.push('\n');
            if !is_valid_identifier(entry.0.as_str()) {
                s.push('"');
                push_escaped(s, entry.0.as_str());
                s.push('"');
            } else {
                s.append(entry.0.as_str());
            }
            s.push(':');
            s.push(' ');
            assert(s@ == before + ((if i > 0 {
                seq![',', ' ']
            } else {
                Seq::empty()
            }) + seq!['\n'] + key_text(entry.0@) + seq![':', ' ']));
            self.set_skip(true);
            self.serialize_value(obj, &entry.1, s);
            assert(s@ + entries_text(map@, macros, indent, (i + 1) as nat) == before
                + entries_text(map@, macros, indent, i as nat));
            i += 1;
        }
        assert(s@ + Seq::<char>::empty() == s@);
        self.set_skip(skip);
    }
}

/// A serializer of documents: it appends text to a string, at an
/// indentation that it keeps track of.
pub trait AeonFormatter {
    /// Whether the formatter is in a valid state.
    spec fn ready(&self) -> bool;

    /// The current indentation, in spaces.
    spec fn indentation(&self) -> nat;

    /// Whether the next value goes on a line that was begun for it.
    spec fn continues(&self) -> bool;

    /// The text of a document.
    fn serialize_aeon(obj: &AeonDocument) -> (r: String)
        ensures
            r@ == document_text(obj@),
    ;

    /// Writes the line that defines a macro.
    fn serialize_macro(&mut self, mac: &AeonMacro, s: &mut String)
        requires
            old(self).ready(),
        ensures
            final(self).ready(),
            final(s)@ == old(s)@ + macro_text(mac@),
            final(self).indentation() == old(self).indentation(),
            final(self).continues() == old(self).continues(),
    ;

    /// Writes a property: its name, a colon and its value.
    fn serialize_property(&mut self, obj: &AeonDocument, property: &AeonProperty, s: &mut String)
        requires
            old(self).ready(),
        ensures
            final(self).ready(),
            final(s)@ == old(s)@ + property_text(
                property.name@,
                property.value@,
                obj@.macros,
                old(self).indentation(),
                old(self).continues(),
            ),
            final(self).indentation() == old(self).indentation(),
            !final(self).continues(),
    ;

    /// Writes a value at the current indentation.
    fn serialize_value(&mut self, obj: &AeonDocument, value: &AeonValue, s: &mut String)
        requires
            old(self).ready(),
        ensures
            final(self).ready(),
            final(s)@ == old(s)@ + value_text(
                value@,
                obj@.macros,
                old(self).indentation(),
                old(self).continues(),
            ),
            final(self).indentation() == old(self).indentation(),
            !final(self).continues(),
    ;
}

impl AeonFormatter for PrettySerializer {
    open spec fn ready(&self) -> bool {
        self.wf()
    }

    open spec fn indentation(&self) -> nat {
        self.depth()
    }

    open spec fn continues(&self) -> bool {
        self.skips()
    }

    fn serialize_aeon(obj: &AeonDocument) -> (r: String) {
        PrettySerializer::serialize_aeon(obj)
    }

    fn serialize_macro(&mut self, mac: &AeonMacro, s: &mut String) {
        PrettySerializer::serialize_macro(self, mac, s)
    }

    fn serialize_property(&mut self, obj: &AeonDocument, property: &AeonProperty, s: &mut String) {
        PrettySerializer::serialize_property(self, obj, property, s)
    }

    fn serialize_value(&mut self, obj: &AeonDocument, value: &AeonValue, s: &mut String) {
        PrettySerializer::serialize_value(self, obj, value, s)
    }
}

} // verus!
