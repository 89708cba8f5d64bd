//! Documents: a table of macros and a table of properties, each in the
//! order of registration.
use crate::error::{AeonDeserializeError, Failure};
use crate::text::{nat_text, push_nat};
use crate::value::{
    distinct_keys, entries_view, find_key, lemma_find_key, lemma_find_key_first,
    lemma_find_key_none, lemma_list_wf, lemma_object_wf, lemma_remove_wf, lemma_upsert_all_wf,
    lemma_upsert_distinct, lemma_upsert_wf, upsert, upsert_all, values_view, AeonMap, AeonValue,
    ValueView,
};
use vstd::prelude::*;
use vstd::string::StringExecFns;

verus! {

/// Mathematical model of an [`AeonMacro`].
pub struct MacroView {
    pub name: Seq<char>,
    pub args: Seq<Seq<char>>,
}

/// Mathematical model of an [`AeonDocument`]: the macros and the properties
/// as entries keyed by name, in the order in which the names were first
/// registered.
pub struct DocView {
    pub macros: Seq<(Seq<char>, MacroView)>,
    pub properties: Seq<(Seq<char>, ValueView)>,
    pub is_empty: bool,
}

/// The entries after the values are bound to the first `n` argument names,
/// positionally and in order.
pub open spec fn bind_args(args: Seq<Seq<char>>, values: Seq<ValueView>, n: nat) -> Seq<
    (Seq<char>, ValueView),
>
    decreases n,
{
    if n == 0 {
        Seq::empty()
    } else {
        upsert(bind_args(args, values, (n - 1) as nat), args[n - 1], values[n - 1])
    }
}

impl MacroView {
    /// Whether no argument name occurs twice.
    pub open spec fn distinct_args(self) -> bool {
        forall|i: int, j: int|
            0 <= i < j < self.args.len() ==> #[trigger] self.args[i] != #[trigger] self.args[j]
    }

    /// Whether every argument name is a key of `entries`.
    pub open spec fn can_apply<V>(self, entries: Seq<(Seq<char>, V)>) -> bool {
        forall|i: int|
            0 <= i < self.args.len() ==> find_key(entries, #[trigger] self.args[i]) is Some
    }

    /// Whether the macro stands for an object with these entries: as many
    /// arguments as entries, and every argument name a key.
    pub open spec fn fits<V>(self, entries: Seq<(Seq<char>, V)>) -> bool {
        self.args.len() == entries.len() && self.can_apply(entries)
    }
}

/// The index of the first macro that fits `entries`.
pub open spec fn first_fit<V>(macros: Seq<(Seq<char>, MacroView)>, entries: Seq<(Seq<char>, V)>)
    -> Option<int>
    decreases macros.len(),
{
    if macros.len() == 0 {
        None
    } else if macros.last().1.fits(entries) && first_fit(macros.drop_last(), entries) is None {
        Some(macros.len() - 1)
    } else {
        first_fit(macros.drop_last(), entries)
    }
}

/// `first_fit` is the least index of a macro that fits, and `None` where no
/// macro fits.
pub proof fn lemma_first_fit<V>(macros: Seq<(Seq<char>, MacroView)>, entries: Seq<(Seq<char>, V)>)
    ensures
        match first_fit(macros, entries) {
            Some(i) => {
                &&& 0 <= i < macros.len()
                &&& macros[i].1.fits(entries)
                &&& forall|j: int| 0 <= j < i ==> !(#[trigger] macros[j]).1.fits(entries)
            },
            None => forall|j: int| 0 <= j < macros.len() ==> !(#[trigger] macros[j]).1.fits(entries),
        },
    decreases macros.len(),
{
    if macros.len() > 0 {
        let front = macros.drop_last();
        lemma_first_fit(front, entries);
        assert forall|j: int| 0 <= j < front.len() implies front[j] == macros[j] by {}
        match first_fit(front, entries) {
            Some(i) => {
                assert forall|j: int| 0 <= j < i implies !(#[trigger] macros[j]).1.fits(
                    entries,
                ) by {
                    assert(!front[j].1.fits(entries));
                }
            },
            None => {
                assert forall|j: int| 0 <= j < macros.len() - 1 implies !(#[trigger] macros[j]).1.fits(
                entries) by {
                    assert(!front[j].1.fits(entries));
                }
            },
        }
    }
}

/// Whether no two macros have the same name and every macro is registered
/// under its own name.
pub open spec fn macros_wf(macros: Seq<(Seq<char>, MacroView)>) -> bool {
    &&& distinct_keys(macros)
    &&& forall|i: int| 0 <= i < macros.len() ==> (#[trigger] macros[i]).0 == macros[i].1.name
}

/// Registering a macro under its name keeps the macro table well formed.
pub proof fn lemma_put_macro_wf(macros: Seq<(Seq<char>, MacroView)>, mac: MacroView)
    requires
        macros_wf(macros),
    ensures
        macros_wf(upsert(macros, mac.name, mac)),
        macros_wf(macros.push((mac.name, mac))) || find_key(macros, mac.name) is Some,
{
    lemma_upsert_distinct(macros, mac.name, mac);
    lemma_find_key(macros, mac.name);
    let after = upsert(macros, mac.name, mac);
    assert forall|i: int| 0 <= i < after.len() implies (#[trigger] after[i]).0
        == after[i].1.name by {
        if i < macros.len() && after[i] == macros[i] {
            assert(macros[i].0 == macros[i].1.name);
        }
    }
}

/// Registering any number of macros, each under its name, keeps the macro
/// table well formed.
pub proof fn lemma_put_macros_wf(
    base: Seq<(Seq<char>, MacroView)>,
    items: Seq<(Seq<char>, MacroView)>,
)
    requires
        macros_wf(base),
        forall|i: int| 0 <= i < items.len() ==> (#[trigger] items[i]).0 == items[i].1.name,
    ensures
        macros_wf(upsert_all(base, items)),
    decreases items.len(),
{
    if items.len() > 0 {
        let front = items.drop_last();
        assert forall|i: int| 0 <= i < front.len() implies (#[trigger] front[i]).0
            == front[i].1.name by {
            assert(front[i] == items[i]);
        }
        lemma_put_macros_wf(base, front);
        assert(items[items.len() - 1].0 == items[items.len() - 1].1.name);
        lemma_put_macro_wf(upsert_all(base, front), items.last().1);
    }
}

/// Binding argument names to well-formed values makes a well-formed
/// object.
pub proof fn lemma_bind_args_wf(args: Seq<Seq<char>>, values: Seq<ValueView>, n: nat)
    requires
        n <= values.len(),
        forall|i: int| 0 <= i < values.len() ==> (#[trigger] values[i]).wf(),
    ensures
        ValueView::Object(bind_args(args, values, n)).wf(),
    decreases n,
{
    if n == 0 {
        lemma_object_wf(bind_args(args, values, 0));
    } else {
        lemma_bind_args_wf(args, values, (n - 1) as nat);
        assert(values[n - 1].wf());
        lemma_upsert_wf(bind_args(args, values, (n - 1) as nat), args[n - 1], values[n - 1]);
    }
}

pub open spec fn msg_macro_missing(name: Seq<char>) -> Seq<char> {
    "Macro does not exist: "@ + name
}

pub open spec fn msg_macro_arity(name: Seq<char>, was: nat, expected: nat) -> Seq<char> {
    "Wrong number of args to macro "@ + name + ": was "@ + nat_text(was) + ", expected "@
        + nat_text(expected)
}

/// The object that the macro named `name` makes of the values: its argument
/// names bound to them positionally. Fails where no macro has the name or
/// the number of values differs from the macro's arity.
pub open spec fn apply_macro(
    macros: Seq<(Seq<char>, MacroView)>,
    name: Seq<char>,
    params: Seq<ValueView>,
) -> Result<ValueView, Failure> {
    match find_key(macros, name) {
        None => Err(Failure::deserialization(msg_macro_missing(name))),
        Some(i) => {
            let args = macros[i].1.args;
            if args.len() != params.len() {
                Err(Failure::deserialization(msg_macro_arity(name, params.len(), args.len())))
            } else {
                Ok(ValueView::Object(bind_args(args, params, args.len())))
            }
        },
    }
}

impl DocView {
    /// The document that nothing was added to.
    pub open spec fn empty() -> DocView {
        DocView { macros: Seq::empty(), properties: Seq::empty(), is_empty: true }
    }

    /// Whether the document is well formed: no two macros and no two
    /// properties have the same name, every macro is registered under its
    /// own name, and every value is well formed.
    pub open spec fn wf(self) -> bool {
        macros_wf(self.macros) && ValueView::Object(self.properties).wf()
    }

    /// First write wins: a property whose name is taken is not added.
    pub open spec fn add_property(self, name: Seq<char>, value: ValueView) -> DocView {
        if find_key(self.properties, name) is Some {
            self
        } else {
            DocView { properties: self.properties.push((name, value)), is_empty: false, ..self }
        }
    }

    pub open spec fn add_or_replace_property(self, name: Seq<char>, value: ValueView) -> DocView {
        DocView { properties: upsert(self.properties, name, value), is_empty: false, ..self }
    }

    /// First write wins: a macro whose name is taken is not added.
    pub open spec fn add_macro(self, mac: MacroView) -> DocView {
        if find_key(self.macros, mac.name) is Some {
            self
        } else {
            DocView { macros: self.macros.push((mac.name, mac)), is_empty: false, ..self }
        }
    }

    pub open spec fn add_or_replace_macro(self, mac: MacroView) -> DocView {
        DocView { macros: upsert(self.macros, mac.name, mac), is_empty: false, ..self }
    }

    /// The value of the property with the given name.
    pub open spec fn get(self, name: Seq<char>) -> Option<ValueView> {
        match find_key(self.properties, name) {
            Some(i) => Some(self.properties[i].1),
            None => None,
        }
    }

    /// The document without the property with the given name.
    pub open spec fn remove(self, name: Seq<char>) -> DocView {
        match find_key(self.properties, name) {
            Some(i) => DocView { properties: self.properties.remove(i), ..self },
            None => self,
        }
    }

    /// The object that the named macro makes of the values.
    pub open spec fn apply_macro(self, name: Seq<char>, params: Seq<ValueView>) -> Result<
        ValueView,
        Failure,
    > {
        apply_macro(self.macros, name, params)
    }

    /// The first macro, in registration order, that fits `entries`.
    pub open spec fn try_get_macro<V>(self, entries: Seq<(Seq<char>, V)>) -> Option<MacroView> {
        match first_fit(self.macros, entries) {
            Some(i) => Some(self.macros[i].1),
            None => None,
        }
    }
}

/// The operations on a document keep it well formed.
pub proof fn lemma_document_wf(doc: DocView, name: Seq<char>, value: ValueView, mac: MacroView)
    requires
        doc.wf(),
    ensures
        DocView::empty().wf(),
        value.wf() ==> doc.add_property(name, value).wf(),
        value.wf() ==> doc.add_or_replace_property(name, value).wf(),
        doc.add_macro(mac).wf(),
        doc.add_or_replace_macro(mac).wf(),
        doc.remove(name).wf(),
        doc.get(name) matches Some(v) ==> v.wf(),
{
    lemma_object_wf(DocView::empty().properties);
    lemma_find_key(doc.properties, name);
    lemma_find_key(doc.macros, mac.name);
    lemma_put_macro_wf(doc.macros, mac);
    if value.wf() {
        lemma_upsert_wf(doc.properties, name, value);
    }
    match find_key(doc.properties, name) {
        Some(i) => {
            lemma_remove_wf(doc.properties, i);
        },
        None => {},
    }
}

/// A named template: an ordered list of argument names.
#[derive(Debug)]
pub struct AeonMacro {
    pub name: String,
    pub args: Vec<String>,
}

/// The character sequences of the strings, in order.
pub open spec fn strings_view(strings: Seq<String>) -> Seq<Seq<char>> {
    Seq::new(strings.len(), |i: int| strings[i]@)
}

impl View for AeonMacro {
    type V = MacroView;

    open spec fn view(&self) -> MacroView {
        MacroView { name: self.name@, args: strings_view(self.args@) }
    }
}

impl Clone for AeonMacro {
    fn clone(&self) -> (r: Self)
        ensures
            r@ == self@,
    {
        let mut args: Vec<String> = Vec::new();
        let mut i: usize = 0;
        while i < self.args.len()
            invariant
                i <= self.args.len(),
                args@.len() == i,
                forall|j: int| 0 <= j < i ==> (#[trigger] args@[j])@ == self.args@[j]@,
            decreases self.args.len() - i,
        {
            args.push(self.args[i].clone());
            i += 1;
        }
        assert(strings_view(args@) =~= strings_view(self.args@));
        AeonMacro { name: self.name.clone(), args }
    }
}

impl AeonMacro {
    pub fn new(name: String, args: Vec<String>) -> (m: AeonMacro)
        ensures
            m@ == (MacroView { name: name@, args: strings_view(args@) }),
    {
        AeonMacro { name, args }
    }

    pub fn new_cloned(name: &str, args: Vec<&str>) -> (m: AeonMacro)
        ensures
            m@.name == name@,
            m@.args == Seq::new(args@.len(), |i: int| args@[i]@),
    {
        let mut owned: Vec<String> = Vec::new();
        let mut i: usize = 0;
        while i < args.len()
            invariant
                i <= args.len(),
                owned@.len() == i,
                forall|j: int| 0 <= j < i ==> (#[trigger] owned@[j])@ == args@[j]@,
            decreases args.len() - i,
        {
            owned.push(args[i].to_owned());
            i += 1;
        }
        let m = AeonMacro { name: name.to_owned(), args: owned };
        assert(m@.args =~= Seq::new(args@.len(), |i: int| args@[i]@));
        m
    }

    pub fn is_empty(&self) -> (b: bool)
        ensures
            b == (self@.args.len() == 0),
    {
        self.args.len() == 0
    }

    /// The arity.
    pub fn len(&self) -> (n: usize)
        ensures
            n == self@.args.len(),
    {
        self.args.len()
    }

    /// Whether every argument name is a key of `map`.
    pub fn can_apply(&self, map: &AeonMap) -> (b: bool)
        ensures
            b == self@.can_apply(map@),
    {
        let mut i: usize = 0;
        while i < self.args.len()
            invariant
                i <= self.args.len(),
                forall|j: int| 0 <= j < i ==> find_key(map@, #[trigger] self@.args[j]) is Some,
            decreases self.args.len() - i,
        {
            if !map.contains_key(self.args[i].as_str()) {
                assert(find_key(map@, self@.args[i as int]) is None);
                return false;
            }
            i += 1;
        }
        true
    }

    /// Binds the argument name at `index` to `value` in `map`.
    pub fn apply(&self, index: usize, value: AeonValue, map: &mut AeonMap)
        requires
            index < self@.args.len(),
        ensures
            final(map)@ == upsert(old(map)@, self@.args[index as int], value@),
    {
        map.insert(self.args[index].clone(), value);
    }
}

/// A named top-level value.
#[derive(Debug)]
pub struct AeonProperty {
    pub name: String,
    pub value: AeonValue,
}

impl AeonProperty {
    pub fn new(name: String, value: AeonValue) -> (p: AeonProperty)
        ensures
            p.name@ == name@,
            p.value@ == value@,
    {
        AeonProperty { name, value }
    }
}

/// The macro definitions and the named properties of one unit of text.
#[derive(Debug)]
pub struct AeonDocument {
    pub macros: Vec<AeonMacro>,
    pub properties: Vec<AeonProperty>,
    pub is_empty: bool,
}

/// The macros as entries keyed by name, in order.
pub open spec fn macros_view(macros: Seq<AeonMacro>) -> Seq<(Seq<char>, MacroView)> {
    Seq::new(macros.len(), |i: int| (macros[i].name@, macros[i]@))
}

/// The properties as entries keyed by name, in order.
pub open spec fn properties_view(properties: Seq<AeonProperty>) -> Seq<(Seq<char>, ValueView)> {
    Seq::new(properties.len(), |i: int| (properties[i].name@, properties[i].value@))
}

impl View for AeonDocument {
    type V = DocView;

    open spec fn view(&self) -> DocView {
        DocView {
            macros: macros_view(self.macros@),
            properties: properties_view(self.properties@),
            is_empty: self.is_empty,
        }
    }
}

impl AeonDocument {
    pub fn new() -> (d: AeonDocument)
        ensures
            d@ == DocView::empty(),
            d@.wf(),
    {
        let d = AeonDocument { macros: Vec::new(), properties: Vec::new(), is_empty: true };
        proof {
            lemma_object_wf(DocView::empty().properties);
        }
        assert(d@.macros =~= Seq::empty());
        assert(d@.properties =~= Seq::empty());
        d
    }

    /// The index of the first macro with the given name.
    pub fn macro_position(&self, name: &str) -> (r: Option<usize>)
        ensures
            match r {
                Some(i) => find_key(self@.macros, name@) == Some(i as int) && i < self.macros@.len(),
                None => find_key(self@.macros, name@) is None,
            },
    {
        let wanted = name.to_owned();
        let mut i: usize = 0;
        while i < self.macros.len()
            invariant
                i <= self.macros.len(),
                wanted@ == name@,
                forall|j: int| 0 <= j < i ==> (#[trigger] self@.macros[j]).0 != name@,
            decreases self.macros.len() - i,
        {
            if self.macros[i].name == wanted {
                proof {
                    lemma_find_key_first(self@.macros, name@, i as int);
                }
                return Some(i);
            }
            i += 1;
        }
        proof {
            lemma_find_key_none(self@.macros, name@);
        }
        None
    }

    /// The index of the first property with the given name.
    pub fn property_position(&self, name: &str) -> (r: Option<usize>)
        ensures
            match r {
                Some(i) => find_key(self@.properties, name@) == Some(i as int) && i
                    < self.properties@.len(),
                None => find_key(self@.properties, name@) is None,
            },
    {
        let wanted = name.to_owned();
        let mut i: usize = 0;
        while i < self.properties.len()
            invariant
                i <= self.properties.len(),
                wanted@ == name@,
                forall|j: int| 0 <= j < i ==> (#[trigger] self@.properties[j]).0 != name@,
            decreases self.properties.len() - i,
        {
            if self.properties[i].name == wanted {
                proof {
                    lemma_find_key_first(self@.properties, name@, i as int);
                }
                return Some(i);
            }
            i += 1;
        }
        proof {
            lemma_find_key_none(self@.properties, name@);
        }
        None
    }

    /// The document whose properties are the entries of the object, a later
    /// entry replacing an earlier one of the same key; `None` for a value
    /// that is no object.
    pub fn try_from_object(object: AeonValue) -> (r: Option<AeonDocument>)
        ensures
            match object@ {
                ValueView::Object(entries) => r matches Some(d) && d@ == (DocView {
                    macros: Seq::empty(),
                    properties: upsert_all(Seq::empty(), entries),
                    is_empty: entries.len() == 0,
                }),
                _ => r is None,
            },
            object@.wf() ==> (r matches Some(d) ==> d@.wf()),
    {
        match object {
            AeonValue::Object(map) => {
                let ghost entries = map@;
                proof {
                    if object@.wf() {
                        lemma_object_wf(entries);
                        lemma_object_wf(Seq::empty());
                        lemma_upsert_all_wf(Seq::empty(), entries);
                    }
                }
                let items = map.into_entries();
                let mut doc = AeonDocument::new();
                for item in it: items
                    invariant
                        entries_view(it.seq()) == entries,
                        doc@.macros == Seq::<(Seq<char>, MacroView)>::empty(),
                        doc@.properties == upsert_all(Seq::empty(), entries.take(it.index())),
                        doc@.is_empty == (it.index() == 0),
                {
                    assert(entries.take(it.index() + 1).drop_last() == entries.take(it.index()));
                    doc.add_or_replace_property(item.0, item.1);
                }
                assert(entries.take(entries.len() as int) == entries);
                Some(doc)
            },
            _ => None,
        }
    }

    /// Adds the property unless a property has the name already.
    pub fn add_property(&mut self, name: &str, value: AeonValue)
        ensures
            final(self)@ == old(self)@.add_property(name@, value@),
            old(self)@.wf() && value@.wf() ==> final(self)@.wf(),
    {
        proof {
            if self@.wf() {
                lemma_document_wf(self@, name@, value@, arbitrary());
            }
        }
        if self.property_position(name).is_some() {
            return ;
        }
        self.properties.push(AeonProperty::new(name.to_owned(), value));
        self.is_empty = false;
        assert(self@.properties =~= old(self)@.properties.push((name@, value@)));
    }

    /// Adds the property, in place of the one that has the name if any.
    pub fn add_or_replace_property(&mut self, name: String, value: AeonValue)
        ensures
            final(self)@ == old(self)@.add_or_replace_property(name@, value@),
            old(self)@.wf() && value@.wf() ==> final(self)@.wf(),
    {
        proof {
            if self@.wf() {
                lemma_document_wf(self@, name@, value@, arbitrary());
            }
        }
        let ghost n = name@;
        let ghost v = value@;
        match self.property_position(name.as_str()) {
            Some(i) => {
                self.properties.remove(i);
                self.properties.insert(i, AeonProperty::new(name, value));
                assert(self@.properties =~= old(self)@.properties.update(i as int, (n, v)));
            },
            None => {
                self.properties.push(AeonProperty::new(name, value));
                assert(self@.properties =~= old(self)@.properties.push((n, v)));
            },
        }
        self.is_empty = false;
    }

    /// Adds the macro unless a macro has its name already.
    pub fn add_macro(&mut self, mac: AeonMacro)
        ensures
            final(self)@ == old(self)@.add_macro(mac@),
            old(self)@.wf() ==> final(self)@.wf(),
    {
        proof {
            if self@.wf() {
                lemma_document_wf(self@, arbitrary(), arbitrary(), mac@);
            }
        }
        if self.macro_position(mac.name.as_str()).is_some() {
            return ;
        }
        self.macros.push(mac);
        self.is_empty = false;
        assert(self@.macros =~= old(self)@.macros.push((mac@.name, mac@)));
    }

    /// Adds the macro, in place of the one that has its name if any.
    pub fn add_or_replace_macro(&mut self, mac: AeonMacro)
        ensures
            final(self)@ == old(self)@.add_or_replace_macro(mac@),
            old(self)@.wf() ==> final(self)@.wf(),
    {
        proof {
            if self@.wf() {
                lemma_document_wf(self@, arbitrary(), arbitrary(), mac@);
            }
        }
        self.put_macro(mac);
        self.is_empty = false;
    }

    /// Binds the macro to its name in the macro table.
    fn put_macro(&mut self, mac: AeonMacro)
        ensures
            final(self)@ == (DocView {
                macros: upsert(old(self)@.macros, mac@.name, mac@),
                ..old(self)@
            }),
    {
        match self.macro_position(mac.name.as_str()) {
            Some(i) => {
                self.macros.remove(i);
                self.macros.insert(i, mac);
                assert(self@.macros =~= old(self)@.macros.update(i as int, (mac@.name, mac@)));
            },
            None => {
                self.macros.push(mac);
                assert(self@.macros =~= old(self)@.macros.push((mac@.name, mac@)));
            },
        }
    }

    /// Replaces the macro table by the given macros, a later one replacing an
    /// earlier one of the same name.
    pub fn set_macros(&mut self, macros: Vec<AeonMacro>)
        ensures
            final(self)@ == (DocView {
                macros: upsert_all(Seq::empty(), macros_view(macros@)),
                ..old(self)@
            }),
            old(self)@.wf() ==> final(self)@.wf(),
    {
        let ghost given = macros_view(macros@);
        proof {
            lemma_put_macros_wf(Seq::empty(), given);
        }
        self.macros = Vec::new();
        assert(self@.macros =~= Seq::empty());
        for mac in it: macros
            invariant
                macros_view(it.seq()) == given,
                self@.macros == upsert_all(Seq::empty(), given.take(it.index())),
                self@.properties == old(self)@.properties,
                self@.is_empty == old(self)@.is_empty,
        {
            assert(given.take(it.index() + 1).drop_last() == given.take(it.index()));
            self.put_macro(mac);
        }
        assert(given.take(given.len() as int) == given);
    }

    /// The object that the named macro makes of the values.
    pub fn apply_macro(&mut self, name: String, params: Vec<AeonValue>) -> (r: Result<
        AeonValue,
        AeonDeserializeError,
    >)
        ensures
            *final(self) == *old(self),
            match old(self)@.apply_macro(name@, values_view(params@)) {
                Ok(v) => r matches Ok(value) && value@ == v,
                Err(e) => r matches Err(error) && error@ == e,
            },
            ValueView::List(values_view(params@)).wf() ==> (r matches Ok(value) ==> value@.wf()),
    {
        proof {
            let values = values_view(params@);
            if ValueView::List(values).wf() {
                lemma_list_wf(values);
                match find_key(self@.macros, name@) {
                    Some(i) => {
                        let args = self@.macros[i].1.args;
                        if args.len() == values.len() {
                            lemma_bind_args_wf(args, values, args.len());
                        }
                    },
                    None => {},
                }
            }
        }
        match self.macro_position(name.as_str()) {
            Some(i) => {
                let mac = &self.macros[i];
                let len = params.len();
                if mac.len() != len {
                    let mut message = String::from_str("Wrong number of args to macro ");
                    message.append(name.as_str());
                    message.append(": was ");
                    push_nat(&mut message, len as u64);
                    message.append(", expected ");
                    push_nat(&mut message, mac.len() as u64);
                    return Err(AeonDeserializeError::deserialization(message));
                }
                let ghost args = mac@.args;
                let ghost values = values_view(params@);
                let mut map = AeonMap::new();
                let mut idx: usize = 0;
                for parameter in it: params
                    invariant
                        idx == it.index(),
                        idx <= len,
                        len == args.len(),
                        it.seq().len() == len,
                        values_view(it.seq()) == values,
                        args == mac@.args,
                        map@ == bind_args(args, values, idx as nat),
                {
                    mac.apply(idx, parameter, &mut map);
                    idx += 1;
                }
                Ok(AeonValue::Object(map))
            },
            None => {
                let mut message = String::from_str("Macro does not exist: ");
                message.append(name.as_str());
                Err(AeonDeserializeError::deserialization(message))
            },
        }
    }

    /// The first macro, in registration order, that fits the object.
    pub fn try_get_macro(&self, map: &AeonMap) -> (r: Option<&AeonMacro>)
        ensures
            match self@.try_get_macro(map@) {
                Some(m) => r matches Some(mac) && mac@ == m,
                None => r is None,
            },
    {
        let mut i: usize = 0;
        while i < self.macros.len()
            invariant
                i <= self.macros.len(),
                forall|j: int| 0 <= j < i ==> !(#[trigger] self@.macros[j]).1.fits(map@),
            decreases self.macros.len() - i,
        {
            let mac = &self.macros[i];
            if mac.len() == map.len() && mac.can_apply(map) {
                proof {
                    lemma_first_fit(self@.macros, map@);
                    assert(self@.macros[i as int].1.fits(map@));
                }
                return Some(mac);
            }
            i += 1;
        }
        proof {
            lemma_first_fit(self@.macros, map@);
        }
        None
    }

    /// Merges this document's macros into `other`'s, in order, replacing
    /// those of the same name.
    pub fn copy_macros_to(&self, other: &mut AeonDocument)
        ensures
            final(other)@ == (DocView {
                macros: upsert_all(old(other)@.macros, self@.macros),
                ..old(other)@
            }),
            old(other)@.wf() ==> final(other)@.wf(),
    {
        proof {
            if other@.wf() {
                lemma_put_macros_wf(other@.macros, self@.macros);
            }
        }
        let mut i: usize = 0;
        while i < self.macros.len()
            invariant
                i <= self.macros.len(),
                other@.macros == upsert_all(old(other)@.macros, self@.macros.take(i as int)),
                other@.properties == old(other)@.properties,
                other@.is_empty == old(other)@.is_empty,
            decreases self.macros.len() - i,
        {
            assert(self@.macros.take(i + 1).drop_last() == self@.macros.take(i as int));
            other.put_macro(self.macros[i].clone());
            i += 1;
        }
        assert(self@.macros.take(self@.macros.len() as int) == self@.macros);
    }
}

impl AeonDocument {
    /// The object whose entries are the document's properties, a later
    /// property replacing an earlier one of the same name.
    pub fn into_value(self) -> (r: AeonValue)
        ensures
            r@ == ValueView::Object(upsert_all(Seq::empty(), self@.properties)),
            self@.wf() ==> r@.wf(),
    {
        let ghost all = self@.properties;
        proof {
            if self@.wf() {
                lemma_object_wf(all);
                lemma_object_wf(Seq::empty());
                lemma_upsert_all_wf(Seq::empty(), all);
            }
        }
        let mut obj = AeonMap::new();
        for p in it: self.properties
            invariant
                properties_view(it.seq()) == all,
                obj@ == upsert_all(Seq::empty(), all.take(it.index())),
        {
            assert(all.take(it.index() + 1).drop_last() == all.take(it.index()));
            assert(all[it.index()] == (p.name@, p.value@));
            obj.insert(p.name, p.value);
        }
        assert(all.take(all.len() as int) == all);
        AeonValue::Object(obj)
    }
}

impl Default for AeonDocument {
    /// A document without macros and properties that is not flagged empty.
    fn default() -> (d: AeonDocument)
        ensures
            d@ == (DocView { is_empty: false, ..DocView::empty() }),
            d@.wf(),
    {
        let d = AeonDocument { macros: Vec::new(), properties: Vec::new(), is_empty: false };
        proof {
            lemma_object_wf(DocView::empty().properties);
        }
        assert(d@.macros =~= Seq::empty());
        assert(d@.properties =~= Seq::empty());
        d
    }
}

impl From<AeonDocument> for AeonValue {
    /// The object whose entries are the document's properties.
    fn from(doc: AeonDocument) -> (r: AeonValue)
        ensures
            r@ == ValueView::Object(upsert_all(Seq::empty(), doc@.properties)),
            doc@.wf() ==> r@.wf(),
    {
        doc.into_value()
    }
}

/// The conversion is described by the contract of `from`, over models: no
/// function of documents names the very object that it builds.
impl vstd::std_specs::convert::FromSpecImpl<AeonDocument> for AeonValue {
    open spec fn obeys_from_spec() -> bool {
        false
    }

    open spec fn from_spec(doc: AeonDocument) -> AeonValue {
        AeonValue::Nil
    }
}

} // verus!
