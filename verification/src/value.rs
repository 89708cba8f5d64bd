//! The values of the data model, and objects as ordered entries with
//! distinct keys.
use crate::text::{is_digit, push_all, spec_is_digit, to_chars};
use vstd::prelude::*;

verus! {

/// Mathematical model of an [`AeonValue`]: strings are character sequences,
/// an object is the sequence of its entries in insertion order.
pub enum ValueView {
    Nil,
    Bool(bool),
    String(Seq<char>),
    Integer(i64),
    Double(Seq<char>),
    Object(Seq<(Seq<char>, ValueView)>),
    List(Seq<ValueView>),
}

/// Whether `text` is a decimal literal with a fraction: an optional minus
/// sign, at least one digit, one decimal point and at least one digit after
/// it.
pub open spec fn is_double_literal(text: Seq<char>) -> bool {
    exists|k: int| is_double_literal_at(text, k)
}

/// Whether `text` is a decimal literal whose decimal point is at index `k`:
/// the point has a digit on each side, and but for a minus sign in front
/// all else is digits.
pub open spec fn is_double_literal_at(text: Seq<char>, k: int) -> bool {
    &&& 0 < k < text.len() - 1
    &&& text[k] == '.'
    &&& spec_is_digit(text[k - 1])
    &&& (spec_is_digit(text[0]) || text[0] == '-')
    &&& forall|i: int| 0 < i < text.len() && i != k ==> spec_is_digit(#[trigger] text[i])
}

/// The index of the first entry with the given key.
pub open spec fn find_key<V>(entries: Seq<(Seq<char>, V)>, key: Seq<char>) -> Option<int>
    decreases entries.len(),
{
    if entries.len() == 0 {
        None
    } else if entries.last().0 == key && find_key(entries.drop_last(), key) is None {
        Some(entries.len() - 1)
    } else {
        find_key(entries.drop_last(), key)
    }
}

/// `find_key` is the least index that holds the key, and `None` where no
/// index holds it.
pub proof fn lemma_find_key<V>(entries: Seq<(Seq<char>, V)>, key: Seq<char>)
    ensures
        match find_key(entries, key) {
            Some(i) => {
                &&& 0 <= i < entries.len()
                &&& entries[i].0 == key
                &&& forall|j: int| 0 <= j < i ==> (#[trigger] entries[j]).0 != key
            },
            None => forall|j: int| 0 <= j < entries.len() ==> (#[trigger] entries[j]).0 != key,
        },
    decreases entries.len(),
{
    if entries.len() > 0 {
        lemma_find_key(entries.drop_last(), key);
        let front = entries.drop_last();
        assert forall|j: int| 0 <= j < front.len() implies front[j] == entries[j] by {}
        match find_key(front, key) {
            Some(i) => {
                assert forall|j: int| 0 <= j < i implies (#[trigger] entries[j]).0 != key by {
                    assert(front[j].0 != key);
                }
            },
            None => {
                assert forall|j: int| 0 <= j < entries.len() - 1 implies (#[trigger] entries[j]).0
                    != key by {
                    assert(front[j].0 != key);
                }
            },
        }
    }
}

/// The least index that holds the key is what `find_key` returns.
pub proof fn lemma_find_key_first<V>(entries: Seq<(Seq<char>, V)>, key: Seq<char>, i: int)
    requires
        0 <= i < entries.len(),
        entries[i].0 == key,
        forall|j: int| 0 <= j < i ==> (#[trigger] entries[j]).0 != key,
    ensures
        find_key(entries, key) == Some(i),
{
    lemma_find_key(entries, key);
}

/// No index holds the key: `find_key` returns `None`.
pub proof fn lemma_find_key_none<V>(entries: Seq<(Seq<char>, V)>, key: Seq<char>)
    requires
        forall|j: int| 0 <= j < entries.len() ==> (#[trigger] entries[j]).0 != key,
    ensures
        find_key(entries, key) is None,
{
    lemma_find_key(entries, key);
}

/// The entries after the key is bound to the value: the first entry with that
/// key is replaced in place, or a new entry is added at the end.
pub open spec fn upsert<V>(entries: Seq<(Seq<char>, V)>, key: Seq<char>, value: V) -> Seq<
    (Seq<char>, V),
> {
    match find_key(entries, key) {
        Some(i) => entries.update(i, (key, value)),
        None => entries.push((key, value)),
    }
}

/// Whether no key occurs twice.
pub open spec fn distinct_keys<V>(entries: Seq<(Seq<char>, V)>) -> bool {
    forall|i: int, j: int|
        0 <= i < j < entries.len() ==> (#[trigger] entries[i]).0 != (#[trigger] entries[j]).0
}

/// Binding a key keeps the keys distinct.
pub proof fn lemma_upsert_distinct<V>(entries: Seq<(Seq<char>, V)>, key: Seq<char>, value: V)
    requires
        distinct_keys(entries),
    ensures
        distinct_keys(upsert(entries, key, value)),
        find_key(upsert(entries, key, value), key) is Some,
        upsert(entries, key, value)[find_key(upsert(entries, key, value), key).unwrap()].1
            == value,
{
    lemma_find_key(entries, key);
    let after = upsert(entries, key, value);
    match find_key(entries, key) {
        Some(i) => {
            assert forall|a: int, b: int| 0 <= a < b < after.len() implies (#[trigger] after[a]).0
                != (#[trigger] after[b]).0 by {
                assert(entries[a].0 != entries[b].0);
            }
            assert forall|j: int| 0 <= j < i implies (#[trigger] after[j]).0 != key by {
                assert(entries[j].0 != key);
            }
            lemma_find_key_first(after, key, i);
        },
        None => {
            assert forall|a: int, b: int| 0 <= a < b < after.len() implies (#[trigger] after[a]).0
                != (#[trigger] after[b]).0 by {
                if b < entries.len() {
                    assert(entries[a].0 != entries[b].0);
                } else {
                    assert(entries[a].0 != key);
                }
            }
            assert forall|j: int| 0 <= j < entries.len() implies (#[trigger] after[j]).0
                != key by {
                assert(entries[j].0 != key);
            }
            lemma_find_key_first(after, key, entries.len() as int);
        },
    }
}

/// The entries after each of `items` is bound in turn.
pub open spec fn upsert_all<V>(base: Seq<(Seq<char>, V)>, items: Seq<(Seq<char>, V)>) -> Seq<
    (Seq<char>, V),
>
    decreases items.len(),
{
    if items.len() == 0 {
        base
    } else {
        upsert(upsert_all(base, items.drop_last()), items.last().0, items.last().1)
    }
}

impl ValueView {
    /// Whether the value is well formed: every double is a decimal literal
    /// and no object holds a key twice.
    pub open spec fn wf(self) -> bool
        decreases self,
    {
        match self {
            ValueView::Double(text) => is_double_literal(text),
            ValueView::Object(entries) => {
                &&& distinct_keys(entries)
                &&& forall|i: int| 0 <= i < entries.len() ==> (#[trigger] entries[i]).1.wf()
            },
            ValueView::List(items) => forall|i: int|
                0 <= i < items.len() ==> (#[trigger] items[i]).wf(),
            _ => true,
        }
    }

    /// The value bound to `key`, where the value is an object that holds it.
    pub open spec fn get(self, key: Seq<char>) -> Option<ValueView> {
        match self {
            ValueView::Object(entries) => match find_key(entries, key) {
                Some(i) => Some(entries[i].1),
                None => None,
            },
            _ => None,
        }
    }

    /// Numeric tag of the variant.
    pub open spec fn tag(self) -> u8 {
        match self {
            ValueView::Nil => 0,
            ValueView::Bool(_) => 1,
            ValueView::String(_) => 2,
            ValueView::Integer(_) => 3,
            ValueView::Double(_) => 4,
            ValueView::Object(_) => 5,
            ValueView::List(_) => 6,
        }
    }
}

/// An object is well formed where its keys are distinct and its values
/// are well formed.
pub proof fn lemma_object_wf(entries: Seq<(Seq<char>, ValueView)>)
    ensures
        ValueView::Object(entries).wf() <==> (distinct_keys(entries) && forall|i: int|
            0 <= i < entries.len() ==> (#[trigger] entries[i]).1.wf()),
{
    let object = ValueView::Object(entries);
    assert(object->Object_0 == entries);
}

/// A list is well formed where its items are.
pub proof fn lemma_list_wf(items: Seq<ValueView>)
    ensures
        ValueView::List(items).wf() <==> (forall|i: int|
            0 <= i < items.len() ==> (#[trigger] items[i]).wf()),
{
    let list = ValueView::List(items);
    assert(list->List_0 == items);
}

/// Binding a key to a well-formed value keeps an object well formed.
pub proof fn lemma_upsert_wf(entries: Seq<(Seq<char>, ValueView)>, key: Seq<char>, value: ValueView)
    requires
        ValueView::Object(entries).wf(),
        value.wf(),
    ensures
        ValueView::Object(upsert(entries, key, value)).wf(),
{
    lemma_object_wf(entries);
    lemma_object_wf(upsert(entries, key, value));
    lemma_upsert_distinct(entries, key, value);
    lemma_find_key(entries, key);
    let after = upsert(entries, key, value);
    assert forall|i: int| 0 <= i < after.len() implies (#[trigger] after[i]).1.wf() by {
        if i < entries.len() && after[i] == entries[i] {
            assert(entries[i].1.wf());
        }
    }
}

/// Taking an entry out keeps an object well formed.
pub proof fn lemma_remove_wf(entries: Seq<(Seq<char>, ValueView)>, i: int)
    requires
        ValueView::Object(entries).wf(),
        0 <= i < entries.len(),
    ensures
        ValueView::Object(entries.remove(i)).wf(),
        entries[i].1.wf(),
{
    lemma_object_wf(entries);
    lemma_object_wf(entries.remove(i));
    let after = entries.remove(i);
    assert forall|a: int, b: int| 0 <= a < b < after.len() implies (#[trigger] after[a]).0 != (
    #[trigger] after[b]).0 by {
        let x = if a < i { a } else { a + 1 };
        let y = if b < i { b } else { b + 1 };
        assert(entries[x].0 != entries[y].0);
    }
    assert forall|a: int| 0 <= a < after.len() implies (#[trigger] after[a]).1.wf() by {
        let x = if a < i { a } else { a + 1 };
        assert(entries[x].1.wf());
    }
    assert(entries[i].1.wf());
}

/// Binding any number of keys to well-formed values keeps an object well
/// formed.
pub proof fn lemma_upsert_all_wf(
    base: Seq<(Seq<char>, ValueView)>,
    items: Seq<(Seq<char>, ValueView)>,
)
    requires
        ValueView::Object(base).wf(),
        forall|i: int| 0 <= i < items.len() ==> (#[trigger] items[i]).1.wf(),
    ensures
        ValueView::Object(upsert_all(base, items)).wf(),
    decreases items.len(),
{
    if items.len() > 0 {
        let front = items.drop_last();
        assert forall|i: int| 0 <= i < front.len() implies (#[trigger] front[i]).1.wf() by {
            assert(front[i] == items[i]);
        }
        lemma_upsert_all_wf(base, front);
        assert(items[items.len() - 1].1.wf());
        lemma_upsert_wf(upsert_all(base, front), items.last().0, items.last().1);
    }
}

/// Name of the variant with the given tag.
pub open spec fn tag_name(tag: u8) -> Seq<char> {
    if tag == 0 {
        "nil"@
    } else if tag == 1 {
        "bool"@
    } else if tag == 2 {
        "string"@
    } else if tag == 3 {
        "int"@
    } else if tag == 4 {
        "double"@
    } else if tag == 5 {
        "object"@
    } else if tag == 6 {
        "list"@
    } else {
        "Missing implementation for tag, bug in AeonValue::tag_to_str"@
    }
}

/// A double, held as the decimal literal that denotes it: an optional minus
/// sign, digits, a decimal point and digits.
#[derive(Debug)]
pub struct AeonDouble {
    text: String,
}

impl View for AeonDouble {
    type V = Seq<char>;

    closed spec fn view(&self) -> Seq<char> {
        self.text@
    }
}

impl AeonDouble {
    #[verifier::type_invariant]
    spec fn literal(self) -> bool {
        is_double_literal(self.text@)
    }

    /// The double that `text` denotes; `None` where `text` is no decimal
    /// literal with a fraction.
    pub fn parse(text: &str) -> (r: Option<AeonDouble>)
        ensures
            match r {
                Some(d) => is_double_literal(text@) && d@ == text@,
                None => !is_double_literal(text@),
            },
    {
        let chars = to_chars(text);
        if check_double_literal(&chars) {
            Some(AeonDouble { text: text.to_owned() })
        } else {
            None
        }
    }

    /// The double that the literal `chars` denotes.
    pub(crate) fn from_literal(chars: &Vec<char>) -> (d: AeonDouble)
        requires
            is_double_literal(chars@),
        ensures
            d@ == chars@,
    {
        let mut text = String::new();
        push_all(&mut text, chars);
        AeonDouble { text }
    }

    /// Whether the two doubles are written alike.
    pub fn same_text(&self, other: &AeonDouble) -> (r: bool)
        ensures
            r == (self@ == other@),
    {
        self.text == other.text
    }

    /// The literal.
    pub fn as_str(&self) -> (r: &str)
        ensures
            r@ == self@,
            is_double_literal(self@),
    {
        proof {
            use_type_invariant(self);
        }
        self.text.as_str()
    }
}

impl Clone for AeonDouble {
    fn clone(&self) -> (r: Self)
        ensures
            r@ == self@,
    {
        proof {
            use_type_invariant(self);
        }
        AeonDouble { text: self.text.clone() }
    }
}

/// An object: keys bound to values, kept in the order in which the keys
/// were first bound.
#[derive(Debug)]
pub struct AeonMap {
    entries: Vec<(String, AeonValue)>,
}

/// A value of the data model.
#[derive(Debug)]
pub enum AeonValue {
    Nil,
    Bool(bool),
    String(String),
    Integer(i64),
    Double(AeonDouble),
    Object(AeonMap),
    List(Vec<AeonValue>),
}

/// The models of the entries `(key, value)`, in order.
pub open spec fn entries_view(entries: Seq<(String, AeonValue)>) -> Seq<(Seq<char>, ValueView)>
    decreases entries,
{
    Seq::new(
        entries.len(),
        |i: int|
            if 0 <= i < entries.len() {
                (entries[i].0@, entries[i].1@)
            } else {
                (Seq::empty(), ValueView::Nil)
            },
    )
}

/// The models of the values, in order.
pub open spec fn values_view(items: Seq<AeonValue>) -> Seq<ValueView>
    decreases items,
{
    Seq::new(items.len(), |i: int| if 0 <= i < items.len() { items[i]@ } else { ValueView::Nil })
}

impl View for AeonMap {
    type V = Seq<(Seq<char>, ValueView)>;

    closed spec fn view(&self) -> Seq<(Seq<char>, ValueView)>
        decreases self,
    {
        entries_view(self.entries@)
    }
}

impl View for AeonValue {
    type V = ValueView;

    open spec fn view(&self) -> ValueView
        decreases self,
    {
        match self {
            AeonValue::Nil => ValueView::Nil,
            AeonValue::Bool(b) => ValueView::Bool(*b),
            AeonValue::String(s) => ValueView::String(s@),
            AeonValue::Integer(i) => ValueView::Integer(*i),
            AeonValue::Double(d) => ValueView::Double(d@),
            AeonValue::Object(m) => ValueView::Object(m@),
            AeonValue::List(v) => ValueView::List(values_view(v@)),
        }
    }
}

impl AeonMap {
    /// Whether the object is well formed: no key occurs twice, and every
    /// value is well formed.
    pub open spec fn wf(&self) -> bool {
        ValueView::Object(self@).wf()
    }

    /// An object without entries.
    pub fn new() -> (m: AeonMap)
        ensures
            m@ == Seq::<(Seq<char>, ValueView)>::empty(),
            m.wf(),
    {
        let m = AeonMap { entries: Vec::new() };
        proof {
            lemma_object_wf(m@);
        }
        m
    }

    /// The number of entries.
    pub fn len(&self) -> (n: usize)
        ensures
            n == self@.len(),
    {
        self.entries.len()
    }

    pub fn is_empty(&self) -> (b: bool)
        ensures
            b == (self@.len() == 0),
    {
        self.entries.len() == 0
    }

    /// The entries, in insertion order.
    pub fn entries(&self) -> (r: &Vec<(String, AeonValue)>)
        ensures
            entries_view(r@) == self@,
    {
        &self.entries
    }

    /// The entries, in insertion order, taken out of the object.
    pub fn into_entries(self) -> (r: Vec<(String, AeonValue)>)
        ensures
            entries_view(r@) == self@,
    {
        self.entries
    }

    /// The index of the first entry with the given key.
    pub fn position(&self, key: &str) -> (r: Option<usize>)
        ensures
            r.is_some() == find_key(self@, key@).is_some(),
            r matches Some(i) ==> find_key(self@, key@) == Some(i as int) && i < self@.len(),
    {
        let wanted = key.to_owned();
        let mut i: usize = 0;
        while i < self.entries.len()
            invariant
                i <= self.entries.len(),
                wanted@ == key@,
                forall|j: int| 0 <= j < i ==> (#[trigger] self@[j]).0 != key@,
            decreases self.entries.len() - i,
        {
            if self.entries[i].0 == wanted {
                proof {
                    lemma_find_key_first(self@, key@, i as int);
                }
                return Some(i);
            }
            i += 1;
        }
        proof {
            lemma_find_key_none(self@, key@);
        }
        None
    }

    pub fn contains_key(&self, key: &str) -> (b: bool)
        ensures
            b == find_key(self@, key@).is_some(),
    {
        self.position(key).is_some()
    }

    /// The value bound to `key`.
    pub fn get(&self, key: &str) -> (r: Option<&AeonValue>)
        ensures
            match find_key(self@, key@) {
                Some(i) => r matches Some(v) && v@ == self@[i].1,
                None => r is None,
            },
    {
        match self.position(key) {
            Some(i) => Some(&self.entries[i].1),
            None => None,
        }
    }

    /// Binds `key` to `value` and returns the value that the key was bound
    /// to before. A key that is bound already keeps its place.
    pub fn insert(&mut self, key: String, value: AeonValue) -> (r: Option<AeonValue>)
        ensures
            final(self)@ == upsert(old(self)@, key@, value@),
            match find_key(old(self)@, key@) {
                Some(i) => r matches Some(v) && v@ == old(self)@[i].1,
                None => r is None,
            },
            old(self).wf() && value@.wf() ==> final(self).wf(),
    {
        proof {
            if self.wf() && value@.wf() {
                lemma_upsert_wf(self@, key@, value@);
            }
        }
        match self.position(key.as_str()) {
            Some(i) => {
                let ghost before = self.entries@;
                let ghost k = key@;
                let ghost val = value@;
                let old_entry = self.entries.remove(i);
                self.entries.insert(i, (key, value));
                assert(self.entries@.len() == before.len());
                assert(self@ =~= upsert(entries_view(before), k, val));
                Some(old_entry.1)
            },
            None => {
                let ghost before = self.entries@;
                let ghost k = key@;
                let ghost val = value@;
                self.entries.push((key, value));
                assert(self@ =~= upsert(entries_view(before), k, val));
                None
            },
        }
    }

    /// Takes the entry with the given key out and returns its value.
    pub fn remove(&mut self, key: &str) -> (r: Option<AeonValue>)
        ensures
            match find_key(old(self)@, key@) {
                Some(i) => {
                    &&& final(self)@ == old(self)@.remove(i)
                    &&& r matches Some(v)
                    &&& v@ == old(self)@[i].1
                },
                None => final(self)@ == old(self)@ && r is None,
            },
            old(self).wf() ==> final(self).wf() && (r matches Some(v) ==> v@.wf()),
    {
        match self.position(key) {
            Some(i) => {
                proof {
                    if self.wf() {
                        lemma_remove_wf(self@, i as int);
                    }
                }
                let ghost before = self.entries@;
                let entry = self.entries.remove(i);
                assert(self@ =~= entries_view(before).remove(i as int));
                Some(entry.1)
            },
            None => None,
        }
    }
}

impl Clone for AeonMap {
    fn clone(&self) -> (r: Self)
        ensures
            r@ == self@,
        decreases self,
    {
        let mut entries: Vec<(String, AeonValue)> = Vec::new();
        let mut i: usize = 0;
        while i < self.entries.len()
            invariant
                i <= self.entries.len(),
                entries@.len() == i,
                forall|j: int|
                    0 <= j < i ==> (#[trigger] entries@[j]).0@ == self.entries@[j].0@
                        && entries@[j].1@ == self.entries@[j].1@,
            decreases self.entries.len() - i,
        {
            let entry = &self.entries[i];
            entries.push((entry.0.clone(), entry.1.clone()));
            i += 1;
        }
        let r = AeonMap { entries };
        assert(r@ =~= self@);
        r
    }
}

/// A copy of each value, in order.
pub fn clone_values(v: &Vec<AeonValue>) -> (items: Vec<AeonValue>)
    ensures
        values_view(items@) == values_view(v@),
    decreases v,
{
    let mut items: Vec<AeonValue> = Vec::new();
    let mut i: usize = 0;
    while i < v.len()
        invariant
            i <= v.len(),
            items@.len() == i,
            forall|j: int| 0 <= j < i ==> (#[trigger] items@[j])@ == v@[j]@,
        decreases v.len() - i,
    {
        items.push(v[i].clone());
        i += 1;
    }
    assert(values_view(items@) =~= values_view(v@));
    items
}

impl Clone for AeonValue {
    fn clone(&self) -> (r: Self)
        ensures
            r@ == self@,
        decreases self,
    {
        match self {
            AeonValue::Nil => AeonValue::Nil,
            AeonValue::Bool(b) => AeonValue::Bool(*b),
            AeonValue::String(s) => AeonValue::String(s.clone()),
            AeonValue::Integer(i) => AeonValue::Integer(*i),
            AeonValue::Double(d) => AeonValue::Double(d.clone()),
            AeonValue::Object(m) => AeonValue::Object(m.clone()),
            AeonValue::List(v) => AeonValue::List(clone_values(v)),
        }
    }
}

impl AeonValue {
    /// Numeric tag of the variant.
    pub fn tag(&self) -> (t: u8)
        ensures
            t == self@.tag(),
    {
        match self {
            AeonValue::Nil => 0,
            AeonValue::Bool(_) => 1,
            AeonValue::String(_) => 2,
            AeonValue::Integer(_) => 3,
            AeonValue::Double(_) => 4,
            AeonValue::Object(_) => 5,
            AeonValue::List(_) => 6,
        }
    }

    /// Name of the variant with the given tag.
    pub fn tag_to_str(tag: u8) -> (r: &'static str)
        ensures
            r@ == tag_name(tag),
    {
        match tag {
            0 => "nil",
            1 => "bool",
            2 => "string",
            3 => "int",
            4 => "double",
            5 => "object",
            6 => "list",
            _ => "Missing implementation for tag, bug in AeonValue::tag_to_str",
        }
    }
}

/// Decides `is_double_literal`.
pub fn check_double_literal(chars: &Vec<char>) -> (b: bool)
    ensures
        b == is_double_literal(chars@),
{
    let n = chars.len();
    if n < 3 || !(is_digit(chars[0]) || chars[0] == '-') {
        assert(!is_double_literal(chars@)) by {
            assert forall|k: int| !is_double_literal_at(chars@, k) by {}
        }
        return false;
    }
    let mut dot: usize = 0;
    let mut i: usize = 1;
    while i < n
        invariant
            1 <= i <= n,
            n == chars.len(),
            dot < i,
            dot == 0 ==> forall|j: int| 0 < j < i ==> spec_is_digit(#[trigger] chars@[j]),
            dot > 0 ==> chars@[dot as int] == '.' && forall|j: int|
                0 < j < i && j != dot ==> spec_is_digit(#[trigger] chars@[j]),
        decreases n - i,
    {
        let c = chars[i];
        if c == '.' {
            if dot > 0 {
                assert(!is_double_literal(chars@)) by {
                    assert forall|k: int| !is_double_literal_at(chars@, k) by {
                        if is_double_literal_at(chars@, k) {
                            if k == dot {
                                assert(spec_is_digit(chars@[i as int]));
                            } else {
                                assert(spec_is_digit(chars@[dot as int]));
                            }
                        }
                    }
                }
                return false;
            }
            dot = i;
        } else if !is_digit(c) {
            assert(!is_double_literal(chars@)) by {
                assert forall|k: int| !is_double_literal_at(chars@, k) by {
                    if is_double_literal_at(chars@, k) {
                        assert(spec_is_digit(chars@[i as int]));
                    }
                }
            }
            return false;
        }
        i += 1;
    }
    if dot == 0 || dot == n - 1 {
        assert(!is_double_literal(chars@)) by {
            assert forall|k: int| !is_double_literal_at(chars@, k) by {
                if is_double_literal_at(chars@, k) {
                    if dot == 0 {
                        assert(spec_is_digit(chars@[k]));
                    } else if k != dot {
                        assert(spec_is_digit(chars@[dot as int]));
                    }
                }
            }
        }
        return false;
    }
    if !is_digit(chars[dot - 1]) {
        assert(!is_double_literal(chars@)) by {
            assert forall|k: int| !is_double_literal_at(chars@, k) by {
                if is_double_literal_at(chars@, k) && k != dot {
                    assert(spec_is_digit(chars@[dot as int]));
                }
            }
        }
        return false;
    }
    assert(is_double_literal_at(chars@, dot as int));
    true
}

} // verus!
