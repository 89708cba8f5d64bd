//! Access to values by variant, to properties by name and path, and
//! conversions between values and the types of a program.
use crate::document::{strings_view, AeonDocument, AeonMacro, DocView};
use crate::error::{AeonDeserializeError, AeonSerializeError, Failure};
use crate::text::to_chars;
use crate::value::{find_key, tag_name, values_view, AeonDouble, AeonMap, AeonValue, ValueView};
use crate::{AeonDeserializeProperty, AeonSerializeProperty, DeserializeResult, SerializeResult};
use vstd::prelude::*;
use vstd::string::StringExecFns;

verus! {

/// The segment that ends at a slash or at the end of a path, if it is not
/// empty.
pub open spec fn segment(current: Seq<char>) -> Seq<Seq<char>> {
    if current.len() > 0 {
        seq![current]
    } else {
        Seq::empty()
    }
}

/// The segments of the path `s`, `current` being what was read of the
/// segment that `s` goes on with.
pub open spec fn segments_from(s: Seq<char>, current: Seq<char>) -> Seq<Seq<char>>
    decreases s.len(),
{
    if s.len() == 0 {
        segment(current)
    } else if s[0] == '/' {
        segment(current) + segments_from(s.skip(1), Seq::empty())
    } else {
        segments_from(s.skip(1), current.push(s[0]))
    }
}

/// The segments of a slash-delimited path; empty segments are left out.
pub open spec fn path_segments(path: Seq<char>) -> Seq<Seq<char>> {
    segments_from(path, Seq::empty())
}

/// The value reached from `start` by following the segments from index `i`
/// on, each as a key of the object reached before; `None` as soon as a value
/// is no object or lacks the key.
pub open spec fn descend(start: Option<ValueView>, segments: Seq<Seq<char>>, i: nat) -> Option<
    ValueView,
>
    decreases segments.len() - i,
{
    if i >= segments.len() {
        start
    } else {
        descend(
            match start {
                Some(v) => v.get(segments[i as int]),
                None => None,
            },
            segments,
            i + 1,
        )
    }
}

impl DocView {
    /// The value at the end of the path: the first segment names a property,
    /// each further segment a key of the object reached before.
    pub open spec fn get_path(self, path: Seq<char>) -> Option<ValueView> {
        let segments = path_segments(path);
        if segments.len() == 0 {
            None
        } else {
            descend(self.get(segments[0]), segments, 1)
        }
    }

    /// The document after `remove_path`: without the property that the
    /// path's first segment names.
    pub open spec fn remove_path(self, path: Seq<char>) -> DocView {
        let segments = path_segments(path);
        if segments.len() == 0 {
            self
        } else {
            self.remove(segments[0])
        }
    }
}

/// Empty segments are ignored: a path with two slashes in a row has the
/// segments of the path with one.
pub proof fn law_empty_segments(before: Seq<char>, after: Seq<char>, current: Seq<char>)
    ensures
        segments_from(before + seq!['/', '/'] + after, current) == segments_from(
            before + seq!['/'] + after,
            current,
        ),
    decreases before.len(),
{
    let twice = before + seq!['/', '/'] + after;
    let once = before + seq!['/'] + after;
    if before.len() == 0 {
        let none = Seq::<char>::empty();
        assert(twice[0] == '/' && twice.skip(1) == once);
        assert(once[0] == '/' && once.skip(1) == after);
        assert(segments_from(once, none) == segment(none) + segments_from(after, none));
        assert(segment(none) + segments_from(after, none) == segments_from(after, none));
    } else {
        assert(twice[0] == before[0] && once[0] == before[0]);
        assert(twice.skip(1) == before.skip(1) + seq!['/', '/'] + after);
        assert(once.skip(1) == before.skip(1) + seq!['/'] + after);
        if before[0] == '/' {
            law_empty_segments(before.skip(1), after, Seq::empty());
        } else {
            law_empty_segments(before.skip(1), after, current.push(before[0]));
        }
    }
}

/// A path with an empty segment leads where the path without it leads.
pub proof fn law_path_access(doc: DocView, before: Seq<char>, after: Seq<char>)
    ensures
        doc.get_path(before + seq!['/', '/'] + after) == doc.get_path(before + seq!['/'] + after),
{
    law_empty_segments(before, after, Seq::empty());
}

/// Splits a slash-delimited path into its segments; empty segments are left
/// out.
pub fn split_path(path: &str) -> (r: Vec<String>)
    ensures
        strings_view(r@) == path_segments(path@),
{
    let chars = to_chars(path);
    let mut out: Vec<String> = Vec::new();
    let mut current = String::new();
    let mut i: usize = 0;
    assert(chars@.skip(0) == chars@);
    assert(strings_view(out@) + segments_from(chars@, Seq::empty()) == segments_from(
        chars@,
        Seq::empty(),
    ));
    while i < chars.len()
        invariant
            i <= chars.len(),
            chars@ == path@,
            strings_view(out@) + segments_from(chars@.skip(i as int), current@) == path_segments(path@),
        decreases chars.len() - i,
    {
        let c = chars[i];
        let ghost rest = chars@.skip(i as int);
        let ghost before = strings_view(out@);
        let ghost cur = current@;
        assert(rest.skip(1) == chars@.skip(i + 1));
        assert(rest[0] == c);
        if c == '/' {
            if !current.as_str().is_empty() {
                out.push(current);
                assert(strings_view(out@) == before + seq![cur]);
            }
            current = String::new();
            assert(strings_view(out@) == before + segment(cur));
            assert(strings_view(out@) + segments_from(rest.skip(1), Seq::empty()) == before
                + segments_from(rest, cur));
        } else {
            current.push(c);
        }
        i += 1;
    }
    let ghost before = strings_view(out@);
    let ghost cur = current@;
    if !current.as_str().is_empty() {
        out.push(current);
        assert(strings_view(out@) == before + seq![cur]);
    }
    assert(strings_view(out@) == before + segment(cur));
    out
}

/// Whether `out` holds what `T` makes of each of `items`, in order.
pub open spec fn converted<T: AeonDeserializeProperty>(items: Seq<AeonValue>, out: Seq<T>) -> bool {
    &&& out.len() == items.len()
    &&& forall|i: int|
        0 <= i < items.len() ==> call_ensures(
            T::from_property,
            (#[trigger] items[i],),
            Ok::<T, AeonDeserializeError>(out[i]),
        )
}

/// Whether `T` refuses the item at index `i`.
pub open spec fn refused<T: AeonDeserializeProperty>(items: Seq<AeonValue>, i: int) -> bool {
    &&& 0 <= i < items.len()
    &&& exists|e: AeonDeserializeError|
        call_ensures(T::from_property, (items[i],), Err::<T, AeonDeserializeError>(e))
}

/// Whether `T` refuses the item at index `i` with the failure `e`, having
/// accepted the items before it.
pub open spec fn refused_with<T: AeonDeserializeProperty>(
    items: Seq<AeonValue>,
    i: int,
    e: AeonDeserializeError,
) -> bool {
    &&& 0 <= i < items.len()
    &&& call_ensures(T::from_property, (items[i],), Err::<T, AeonDeserializeError>(e))
}

/// An `AeonValue`, or an optional one, with accessors by variant.
pub trait AeonConvert: Sized {
    /// The value that the receiver holds, if it holds one.
    spec fn subject(&self) -> Option<AeonValue>;

    /// The model of the value that the receiver holds, if it holds one.
    spec fn held(&self) -> Option<ValueView>;

    /// Whether the value is nil.
    fn nil(self) -> (r: bool)
        ensures
            r == (self.held() == Some(ValueView::Nil)),
    ;

    /// The boolean that the value is.
    fn bool(self) -> (r: Option<bool>)
        ensures
            r == match self.held() {
                Some(ValueView::Bool(b)) => Some(b),
                _ => None,
            },
    ;

    /// The string that the value is.
    fn str(self) -> (r: Option<String>)
        ensures
            match self.held() {
                Some(ValueView::String(text)) => r matches Some(s) && s@ == text,
                _ => r is None,
            },
    ;

    /// The integer that the value is.
    fn integer(self) -> (r: Option<i64>)
        ensures
            r == match self.held() {
                Some(ValueView::Integer(i)) => Some(i),
                _ => None,
            },
    ;

    /// The double that the value is.
    fn double(self) -> (r: Option<AeonDouble>)
        ensures
            match self.held() {
                Some(ValueView::Double(text)) => r matches Some(d) && d@ == text,
                _ => r is None,
            },
    ;

    /// The object that the value is.
    fn object(self) -> (r: Option<AeonMap>)
        ensures
            match self.held() {
                Some(ValueView::Object(entries)) => r matches Some(m) && m@ == entries,
                _ => r is None,
            },
    ;

    /// The list that the value is.
    fn list(self) -> (r: Option<Vec<AeonValue>>)
        ensures
            match self.held() {
                Some(ValueView::List(items)) => r matches Some(v) && crate::value::values_view(v@)
                    == items,
                _ => r is None,
            },
    ;

    /// What `T` makes of each item of the list that the value is, in order;
    /// `None` where the value is no list or `T` refuses an item.
    fn list_of<T: AeonDeserializeProperty>(self) -> (r: Option<Vec<T>>)
        ensures
            match self.subject() {
                Some(AeonValue::List(items)) => match r {
                    Some(v) => converted::<T>(items@, v@),
                    None => exists|i: int| refused::<T>(items@, i),
                },
                _ => r is None,
            },
    ;

    /// What `T` makes of the value; `None` where there is no value or `T`
    /// refuses it.
    fn of<T: AeonDeserializeProperty>(self) -> (r: Option<T>)
        ensures
            match self.subject() {
                Some(v) => match r {
                    Some(x) => call_ensures(T::from_property, (v,), Ok::<T, AeonDeserializeError>(x)),
                    None => exists|e: AeonDeserializeError|
                        call_ensures(T::from_property, (v,), Err::<T, AeonDeserializeError>(e)),
                },
                None => r is None,
            },
    ;

    /// A copy of the value bound to `prop`, where the value is an object
    /// that holds the key.
    fn get(&self, prop: &str) -> (r: Option<AeonValue>)
        ensures
            match self.held() {
                Some(v) => match v.get(prop@) {
                    Some(found) => r matches Some(x) && x@ == found,
                    None => r is None,
                },
                None => r is None,
            },
    ;

    /// Takes the value bound to `prop` out of the object, where the value is
    /// an object that holds the key.
    fn remove(&mut self, prop: &str) -> (r: Option<AeonValue>)
        ensures
            match old(self).held() {
                Some(v) => match v.get(prop@) {
                    Some(found) => r matches Some(x) && x@ == found,
                    None => r is None,
                },
                None => r is None,
            },
            final(self).held() == match old(self).held() {
                Some(ValueView::Object(entries)) => match find_key(entries, prop@) {
                    Some(i) => Some(ValueView::Object(entries.remove(i))),
                    None => old(self).held(),
                },
                _ => old(self).held(),
            },
    ;
}

impl AeonConvert for AeonValue {
    open spec fn subject(&self) -> Option<AeonValue> {
        Some(*self)
    }

    open spec fn held(&self) -> Option<ValueView> {
        Some(self@)
    }

    fn nil(self) -> (r: bool) {
        match self {
            AeonValue::Nil => true,
            _ => false,
        }
    }

    fn bool(self) -> (r: Option<bool>) {
        match self {
            AeonValue::Bool(v) => Some(v),
            _ => None,
        }
    }

    fn str(self) -> (r: Option<String>) {
        match self {
            AeonValue::String(v) => Some(v),
            _ => None,
        }
    }

    fn integer(self) -> (r: Option<i64>) {
        match self {
            AeonValue::Integer(v) => Some(v),
            _ => None,
        }
    }

    fn double(self) -> (r: Option<AeonDouble>) {
        match self {
            AeonValue::Double(v) => Some(v),
            _ => None,
        }
    }

    fn object(self) -> (r: Option<AeonMap>) {
        match self {
            AeonValue::Object(v) => Some(v),
            _ => None,
        }
    }

    fn list(self) -> (r: Option<Vec<AeonValue>>) {
        match self {
            AeonValue::List(v) => Some(v),
            _ => None,
        }
    }

    fn list_of<T: AeonDeserializeProperty>(self) -> (r: Option<Vec<T>>) {
        let ghost given = self;
        match Vec::<T>::from_property(self) {
            Ok(v) => Some(v),
            Err(e) => {
                proof {
                    if given is List {
                        let items = given->List_0@;
                        let i = choose|i: int| refused_with::<T>(items, i, e);
                        assert(refused::<T>(items, i));
                    }
                }
                None
            },
        }
    }

    fn of<T: AeonDeserializeProperty>(self) -> (r: Option<T>) {
        match T::from_property(self) {
            Ok(v) => Some(v),
            Err(e) => {
                assert(call_ensures(T::from_property, (self,), Err::<T, AeonDeserializeError>(e)));
                None
            },
        }
    }

    fn get(&self, prop: &str) -> (r: Option<AeonValue>) {
        match self {
            AeonValue::Object(v) => match v.get(prop) {
                Some(found) => Some(found.clone()),
                None => None,
            },
            _ => None,
        }
    }

    fn remove(&mut self, prop: &str) -> (r: Option<AeonValue>) {
        match self {
            AeonValue::Object(v) => v.remove(prop),
            _ => None,
        }
    }
}

impl AeonConvert for Option<AeonValue> {
    open spec fn subject(&self) -> Option<AeonValue> {
        *self
    }

    open spec fn held(&self) -> Option<ValueView> {
        match self {
            Some(v) => Some(v@),
            None => None,
        }
    }

    fn nil(self) -> (r: bool) {
        match self {
            Some(a) => a.nil(),
            None => false,
        }
    }

    fn bool(self) -> (r: Option<bool>) {
        match self {
            Some(a) => a.bool(),
            None => None,
        }
    }

    fn str(self) -> (r: Option<String>) {
        match self {
            Some(a) => a.str(),
            None => None,
        }
    }

    fn integer(self) -> (r: Option<i64>) {
        match self {
            Some(a) => a.integer(),
            None => None,
        }
    }

    fn double(self) -> (r: Option<AeonDouble>) {
        match self {
            Some(a) => a.double(),
            None => None,
        }
    }

    fn object(self) -> (r: Option<AeonMap>) {
        match self {
            Some(a) => a.object(),
            None => None,
        }
    }

    fn list(self) -> (r: Option<Vec<AeonValue>>) {
        match self {
            Some(a) => a.list(),
            None => None,
        }
    }

    fn list_of<T: AeonDeserializeProperty>(self) -> (r: Option<Vec<T>>) {
        match self {
            Some(a) => a.list_of(),
            None => None,
        }
    }

    fn of<T: AeonDeserializeProperty>(self) -> (r: Option<T>) {
        match self {
            Some(a) => a.of(),
            None => None,
        }
    }

    fn get(&self, prop: &str) -> (r: Option<AeonValue>) {
        match self {
            Some(a) => a.get(prop),
            None => None,
        }
    }

    fn remove(&mut self, prop: &str) -> (r: Option<AeonValue>) {
        match self {
            Some(a) => a.remove(prop),
            None => None,
        }
    }
}

/// Access to a document's properties by name and by path.
pub trait AeonObjectConvert {
    /// The document as its model.
    spec fn document(&self) -> DocView;

    /// A copy of the value of the property `prop`.
    fn get(&self, prop: &str) -> (r: Option<AeonValue>)
        ensures
            match self.document().get(prop@) {
                Some(found) => r matches Some(x) && x@ == found,
                None => r is None,
            },
    ;

    /// A copy of the value at the end of the slash-delimited `path`.
    fn get_path(&self, path: &str) -> (r: Option<AeonValue>)
        ensures
            match self.document().get_path(path@) {
                Some(found) => r matches Some(x) && x@ == found,
                None => r is None,
            },
    ;

    /// Takes the property `prop` out of the document and returns its value.
    fn remove(&mut self, prop: &str) -> (r: Option<AeonValue>)
        ensures
            final(self).document() == old(self).document().remove(prop@),
            match old(self).document().get(prop@) {
                Some(found) => r matches Some(x) && x@ == found,
                None => r is None,
            },
    ;

    /// Takes the property that the path's first segment names out of the
    /// document, and returns the value at the end of the path.
    fn remove_path(&mut self, path: &str) -> (r: Option<AeonValue>)
        ensures
            final(self).document() == old(self).document().remove_path(path@),
            match old(self).document().get_path(path@) {
                Some(found) => r matches Some(x) && x@ == found,
                None => r is None,
            },
    ;
}

impl AeonObjectConvert for AeonDocument {
    open spec fn document(&self) -> DocView {
        self@
    }

    fn get(&self, prop: &str) -> (r: Option<AeonValue>) {
        match self.property_position(prop) {
            Some(i) => Some(self.properties[i].value.clone()),
            None => None,
        }
    }

    fn get_path(&self, path: &str) -> (r: Option<AeonValue>) {
        let fragments = split_path(path);
        if fragments.len() == 0 {
            return None;
        }
        let ghost segments = path_segments(path@);
        assert(segments[0] == fragments@[0]@);
        let mut current: Option<AeonValue> = AeonObjectConvert::get(self, fragments[0].as_str());
        let mut i: usize = 1;
        while i < fragments.len()
            invariant
                1 <= i <= fragments.len(),
                segments == strings_view(fragments@),
                descend(current.held(), segments, i as nat) == descend(
                    self@.get(segments[0]),
                    segments,
                    1,
                ),
            decreases fragments.len() - i,
        {
            assert(segments[i as int] == fragments@[i as int]@);
            current = AeonConvert::get(&current, fragments[i].as_str());
            i += 1;
        }
        current
    }

    fn remove(&mut self, prop: &str) -> (r: Option<AeonValue>) {
        match self.property_position(prop) {
            Some(i) => {
                let p = self.properties.remove(i);
                assert(self@.properties == old(self)@.properties.remove(i as int));
                assert(self@.macros == old(self)@.macros);
                Some(p.value)
            },
            None => None,
        }
    }

    fn remove_path(&mut self, path: &str) -> (r: Option<AeonValue>) {
        let fragments = split_path(path);
        if fragments.len() == 0 {
            return None;
        }
        let ghost segments = path_segments(path@);
        assert(segments[0] == fragments@[0]@);
        let mut current: Option<AeonValue> = AeonObjectConvert::remove(
            self,
            fragments[0].as_str(),
        );
        let mut i: usize = 1;
        while i < fragments.len()
            invariant
                1 <= i <= fragments.len(),
                segments == strings_view(fragments@),
                descend(current.held(), segments, i as nat) == descend(
                    old(self)@.get(segments[0]),
                    segments,
                    1,
                ),
            decreases fragments.len() - i,
        {
            assert(segments[i as int] == fragments@[i as int]@);
            current = AeonConvert::remove(&mut current, fragments[i].as_str());
            i += 1;
        }
        current
    }
}

/// The failure of converting a value of the variant with tag `tag` to the
/// type named `target`.
pub open spec fn conversion_failure(tag: u8, target: Seq<char>) -> Failure {
    Failure::conversion("Failed to convert '"@ + tag_name(tag) + "' to '"@ + target + "'"@)
}

/// The failure of converting a value that is no container of the kind that
/// the type named `target` is made from.
pub open spec fn shape_failure(tag: u8, target: Seq<char>) -> Failure {
    Failure::deserialization("Failed to convert '"@ + tag_name(tag) + "' to '"@ + target + "'"@)
}

fn fail_conversion(tag: u8, target: &str) -> (e: AeonDeserializeError)
    ensures
        e@ == conversion_failure(tag, target@),
{
    let mut message = String::from_str("Failed to convert '");
    message.append(AeonValue::tag_to_str(tag));
    message.append("' to '");
    message.append(target);
    message.append("'");
    AeonDeserializeError::conversion(message)
}

fn fail_shape(tag: u8, target: &str) -> (e: AeonDeserializeError)
    ensures
        e@ == shape_failure(tag, target@),
{
    let mut message = String::from_str("Failed to convert '");
    message.append(AeonValue::tag_to_str(tag));
    message.append("' to '");
    message.append(target);
    message.append("'");
    AeonDeserializeError::deserialization(message)
}

impl AeonDeserializeProperty for bool {
    fn from_property(field: AeonValue) -> (r: DeserializeResult<Self>)
        ensures
            match field@ {
                ValueView::Bool(b) => r matches Ok(x) && x == b,
                _ => r matches Err(e) && e@ == conversion_failure(field@.tag(), "bool"@),
            },
    {
        match field {
            AeonValue::Bool(b) => Ok(b),
            other => Err(fail_conversion(other.tag(), "bool")),
        }
    }
}

impl AeonSerializeProperty for bool {
    fn serialize_property(&self) -> (r: SerializeResult<AeonValue>)
        ensures
            r matches Ok(v) && v@ == ValueView::Bool(*self),
    {
        Ok(AeonValue::Bool(*self))
    }

    fn create_property_macros(_insert_self: bool) -> (r: Vec<AeonMacro>)
        ensures
            r@.len() == 0,
    {
        Vec::new()
    }
}

impl AeonDeserializeProperty for String {
    fn from_property(field: AeonValue) -> (r: DeserializeResult<Self>)
        ensures
            match field@ {
                ValueView::String(text) => r matches Ok(x) && x@ == text,
                _ => r matches Err(e) && e@ == conversion_failure(field@.tag(), "String"@),
            },
    {
        match field {
            AeonValue::String(s) => Ok(s),
            other => Err(fail_conversion(other.tag(), "String")),
        }
    }
}

impl AeonSerializeProperty for String {
    fn serialize_property(&self) -> (r: SerializeResult<AeonValue>)
        ensures
            r matches Ok(v) && v@ == ValueView::String(self@),
    {
        Ok(AeonValue::String(self.clone()))
    }

    fn create_property_macros(_insert_self: bool) -> (r: Vec<AeonMacro>)
        ensures
            r@.len() == 0,
    {
        Vec::new()
    }
}

impl AeonDeserializeProperty for i64 {
    fn from_property(field: AeonValue) -> (r: DeserializeResult<Self>)
        ensures
            match field@ {
                ValueView::Integer(i) => r matches Ok(x) && x == i,
                _ => r matches Err(e) && e@ == conversion_failure(field@.tag(), "i64"@),
            },
    {
        match field {
            AeonValue::Integer(i) => Ok(
                i,
            ),
            other => Err(fail_conversion(other.tag(), "i64")),
        }
    }
}

impl AeonSerializeProperty for i64 {
    fn serialize_property(&self) -> (r: SerializeResult<AeonValue>)
        ensures
            r matches Ok(v) && v@ == ValueView::Integer(*self),
    {
        Ok(
            AeonValue::Integer(
                *self,
            ),
        )
    }

    fn create_property_macros(_insert_self: bool) -> (r: Vec<AeonMacro>)
        ensures
            r@.len() == 0,
    {
        Vec::new()
    }
}

impl AeonDeserializeProperty for i32 {
    fn from_property(field: AeonValue) -> (r: DeserializeResult<Self>)
        ensures
            match field@ {
                ValueView::Integer(i) => r matches Ok(x) && x == i as i32,
                _ => r matches Err(e) && e@ == conversion_failure(field@.tag(), "i32"@),
            },
    {
        match field {
            AeonValue::Integer(i) => Ok(
                #[verifier::truncate]
            (i as i32),
            ),
            other => Err(fail_conversion(other.tag(), "i32")),
        }
    }
}

impl AeonSerializeProperty for i32 {
    fn serialize_property(&self) -> (r: SerializeResult<AeonValue>)
        ensures
            r matches Ok(v) && v@ == ValueView::Integer(*self as i64),
    {
        Ok(
            AeonValue::Integer(
                #[verifier::truncate]
            (*self as i64),
            ),
        )
    }

    fn create_property_macros(_insert_self: bool) -> (r: Vec<AeonMacro>)
        ensures
            r@.len() == 0,
    {
        Vec::new()
    }
}

impl AeonDeserializeProperty for i16 {
    fn from_property(field: AeonValue) -> (r: DeserializeResult<Self>)
        ensures
            match field@ {
                ValueView::Integer(i) => r matches Ok(x) && x == i as i16,
                _ => r matches Err(e) && e@ == conversion_failure(field@.tag(), "i16"@),
            },
    {
        match field {
            AeonValue::Integer(i) => Ok(
                #[verifier::truncate]
            (i as i16),
            ),
            other => Err(fail_conversion(other.tag(), "i16")),
        }
    }
}

impl AeonSerializeProperty for i16 {
    fn serialize_property(&self) -> (r: SerializeResult<AeonValue>)
        ensures
            r matches Ok(v) && v@ == ValueView::Integer(*self as i64),
    {
        Ok(
            AeonValue::Integer(
                #[verifier::truncate]
            (*self as i64),
            ),
        )
    }

    fn create_property_macros(_insert_self: bool) -> (r: Vec<AeonMacro>)
        ensures
            r@.len() == 0,
    {
        Vec::new()
    }
}

impl AeonDeserializeProperty for i8 {
    fn from_property(field: AeonValue) -> (r: DeserializeResult<Self>)
        ensures
            match field@ {
                ValueView::Integer(i) => r matches Ok(x) && x == i as i8,
                _ => r matches Err(e) && e@ == conversion_failure(field@.tag(), "i8"@),
            },
    {
        match field {
            AeonValue::Integer(i) => Ok(
                #[verifier::truncate]
            (i as i8),
            ),
            other => Err(fail_conversion(other.tag(), "i8")),
        }
    }
}

impl AeonSerializeProperty for i8 {
    fn serialize_property(&self) -> (r: SerializeResult<AeonValue>)
        ensures
            r matches Ok(v) && v@ == ValueView::Integer(*self as i64),
    {
        Ok(
            AeonValue::Integer(
                #[verifier::truncate]
            (*self as i64),
            ),
        )
    }

    fn create_property_macros(_insert_self: bool) -> (r: Vec<AeonMacro>)
        ensures
            r@.len() == 0,
    {
        Vec::new()
    }
}

impl AeonDeserializeProperty for u64 {
    fn from_property(field: AeonValue) -> (r: DeserializeResult<Self>)
        ensures
            match field@ {
                ValueView::Integer(i) => r matches Ok(x) && x == i as u64,
                _ => r matches Err(e) && e@ == conversion_failure(field@.tag(), "u64"@),
            },
    {
        match field {
            AeonValue::Integer(i) => Ok(
                #[verifier::truncate]
            (i as u64),
            ),
            other => Err(fail_conversion(other.tag(), "u64")),
        }
    }
}

impl AeonSerializeProperty for u64 {
    fn serialize_property(&self) -> (r: SerializeResult<AeonValue>)
        ensures
            r matches Ok(v) && v@ == ValueView::Integer(*self as i64),
    {
        Ok(
            AeonValue::Integer(
                #[verifier::truncate]
            (*self as i64),
            ),
        )
    }

    fn create_property_macros(_insert_self: bool) -> (r: Vec<AeonMacro>)
        ensures
            r@.len() == 0,
    {
        Vec::new()
    }
}

impl AeonDeserializeProperty for u32 {
    fn from_property(field: AeonValue) -> (r: DeserializeResult<Self>)
        ensures
            match field@ {
                ValueView::Integer(i) => r matches Ok(x) && x == i as u32,
                _ => r matches Err(e) && e@ == conversion_failure(field@.tag(), "u32"@),
            },
    {
        match field {
            AeonValue::Integer(i) => Ok(
                #[verifier::truncate]
            (i as u32),
            ),
            other => Err(fail_conversion(other.tag(), "u32")),
        }
    }
}

impl AeonSerializeProperty for u32 {
    fn serialize_property(&self) -> (r: SerializeResult<AeonValue>)
        ensures
            r matches Ok(v) && v@ == ValueView::Integer(*self as i64),
    {
        Ok(
            AeonValue::Integer(
                #[verifier::truncate]
            (*self as i64),
            ),
        )
    }

    fn create_property_macros(_insert_self: bool) -> (r: Vec<AeonMacro>)
        ensures
            r@.len() == 0,
    {
        Vec::new()
    }
}

impl AeonDeserializeProperty for u16 {
    fn from_property(field: AeonValue) -> (r: DeserializeResult<Self>)
        ensures
            match field@ {
                ValueView::Integer(i) => r matches Ok(x) && x == i as u16,
                _ => r matches Err(e) && e@ == conversion_failure(field@.tag(), "u16"@),
            },
    {
        match field {
            AeonValue::Integer(i) => Ok(
                #[verifier::truncate]
            (i as u16),
            ),
            other => Err(fail_conversion(other.tag(), "u16")),
        }
    }
}

impl AeonSerializeProperty for u16 {
    fn serialize_property(&self) -> (r: SerializeResult<AeonValue>)
        ensures
            r matches Ok(v) && v@ == ValueView::Integer(*self as i64),
    {
        Ok(
            AeonValue::Integer(
                #[verifier::truncate]
            (*self as i64),
            ),
        )
    }

    fn create_property_macros(_insert_self: bool) -> (r: Vec<AeonMacro>)
        ensures
            r@.len() == 0,
    {
        Vec::new()
    }
}

impl AeonDeserializeProperty for u8 {
    fn from_property(field: AeonValue) -> (r: DeserializeResult<Self>)
        ensures
            match field@ {
                ValueView::Integer(i) => r matches Ok(x) && x == i as u8,
                _ => r matches Err(e) && e@ == conversion_failure(field@.tag(), "u8"@),
            },
    {
        match field {
            AeonValue::Integer(i) => Ok(
                #[verifier::truncate]
            (i as u8),
            ),
            other => Err(fail_conversion(other.tag(), "u8")),
        }
    }
}

impl AeonSerializeProperty for u8 {
    fn serialize_property(&self) -> (r: SerializeResult<AeonValue>)
        ensures
            r matches Ok(v) && v@ == ValueView::Integer(*self as i64),
    {
        Ok(
            AeonValue::Integer(
                #[verifier::truncate]
            (*self as i64),
            ),
        )
    }

    fn create_property_macros(_insert_self: bool) -> (r: Vec<AeonMacro>)
        ensures
            r@.len() == 0,
    {
        Vec::new()
    }
}

impl AeonDeserializeProperty for AeonDouble {
    fn from_property(field: AeonValue) -> (r: DeserializeResult<Self>)
        ensures
            match field@ {
                ValueView::Double(text) => r matches Ok(x) && x@ == text,
                _ => r matches Err(e) && e@ == conversion_failure(field@.tag(), "double"@),
            },
    {
        match field {
            AeonValue::Double(d) => Ok(d),
            other => Err(fail_conversion(other.tag(), "double")),
        }
    }
}

impl AeonSerializeProperty for AeonDouble {
    fn serialize_property(&self) -> (r: SerializeResult<AeonValue>)
        ensures
            r matches Ok(v) && v@ == ValueView::Double(self@),
    {
        Ok(AeonValue::Double(self.clone()))
    }

    fn create_property_macros(_insert_self: bool) -> (r: Vec<AeonMacro>)
        ensures
            r@.len() == 0,
    {
        Vec::new()
    }
}

impl AeonDeserializeProperty for AeonMap {
    fn from_property(field: AeonValue) -> (r: DeserializeResult<Self>)
        ensures
            match field@ {
                ValueView::Object(entries) => r matches Ok(x) && x@ == entries,
                _ => r matches Err(e) && e@ == shape_failure(field@.tag(), "AeonMap"@),
            },
    {
        match field {
            AeonValue::Object(m) => Ok(m),
            other => Err(fail_shape(other.tag(), "AeonMap")),
        }
    }
}

impl AeonSerializeProperty for AeonMap {
    fn serialize_property(&self) -> (r: SerializeResult<AeonValue>)
        ensures
            r matches Ok(v) && v@ == ValueView::Object(self@),
    {
        Ok(AeonValue::Object(self.clone()))
    }

    fn create_property_macros(_insert_self: bool) -> (r: Vec<AeonMacro>)
        ensures
            r@.len() == 0,
    {
        Vec::new()
    }
}

impl<T: AeonDeserializeProperty> AeonDeserializeProperty for Option<T> {
    /// Nil is `None`; any other value is what `T` makes of it.
    fn from_property(field: AeonValue) -> (r: DeserializeResult<Self>)
        ensures
            field@ is Nil ==> r matches Ok(None),
            !(field@ is Nil) ==> match r {
                Ok(Some(x)) => call_ensures(
                    T::from_property,
                    (field,),
                    Ok::<T, AeonDeserializeError>(x),
                ),
                Ok(None) => false,
                Err(e) => call_ensures(T::from_property, (field,), Err::<T, AeonDeserializeError>(e)),
            },
    {
        match field {
            AeonValue::Nil => Ok(None),
            other => match T::from_property(other) {
                Ok(a) => Ok(Some(a)),
                Err(e) => Err(e),
            },
        }
    }
}

impl<T: AeonSerializeProperty> AeonSerializeProperty for Option<T> {
    /// `None` is nil; `Some` is what `T` makes of the value.
    fn serialize_property(&self) -> (r: SerializeResult<AeonValue>)
        ensures
            match self {
                Some(a) => call_ensures(T::serialize_property, (a,), r),
                None => r matches Ok(v) && v@ == ValueView::Nil,
            },
    {
        match self {
            Some(a) => a.serialize_property(),
            None => Ok(AeonValue::Nil),
        }
    }

    /// The macros of `T`.
    fn create_property_macros(insert_self: bool) -> (r: Vec<AeonMacro>)
        ensures
            call_ensures(T::create_property_macros, (insert_self,), r),
    {
        T::create_property_macros(insert_self)
    }
}

impl<T: AeonDeserializeProperty> AeonDeserializeProperty for Vec<T> {
    /// A list is converted item by item, in order; the first item that `T`
    /// refuses fails the whole, with the failure of `T`.
    fn from_property(field: AeonValue) -> (r: DeserializeResult<Self>)
        ensures
            match field {
                AeonValue::List(items) => match r {
                    Ok(v) => converted::<T>(items@, v@),
                    Err(e) => exists|i: int| refused_with::<T>(items@, i, e),
                },
                _ => r matches Err(e) && e@ == shape_failure(field@.tag(), "Vec"@),
            },
    {
        match field {
            AeonValue::List(items) => {
                let ghost all = items@;
                let mut out: Vec<T> = Vec::new();
                for item in it: items
                    invariant
                        field == AeonValue::List(items),
                        it.seq() == all,
                        out@.len() == it.index(),
                        forall|i: int|
                            0 <= i < it.index() ==> call_ensures(
                                T::from_property,
                                (#[trigger] all[i],),
                                Ok::<T, AeonDeserializeError>(out@[i]),
                            ),
                {
                    let ghost at = it.index();
                    match T::from_property(item) {
                        Ok(a) => out.push(a),
                        Err(e) => {
                            assert(refused_with::<T>(all, at, e));
                            return Err(e);
                        },
                    }
                }
                Ok(out)
            },
            other => Err(fail_shape(other.tag(), "Vec")),
        }
    }
}

/// Whether `out` holds what `T` makes of each of `items`, in order.
pub open spec fn rendered<T: AeonSerializeProperty>(items: Seq<T>, out: Seq<AeonValue>) -> bool {
    &&& out.len() == items.len()
    &&& forall|i: int|
        0 <= i < items.len() ==> call_ensures(
            T::serialize_property,
            (&#[trigger] items[i],),
            Ok::<AeonValue, AeonSerializeError>(out[i]),
        )
}

/// Whether `T` refuses the item at index `i` with the failure `e`.
pub open spec fn unrendered<T: AeonSerializeProperty>(
    items: Seq<T>,
    i: int,
    e: AeonSerializeError,
) -> bool {
    &&& 0 <= i < items.len()
    &&& call_ensures(T::serialize_property, (&items[i],), Err::<AeonValue, AeonSerializeError>(e))
}

impl<T: AeonSerializeProperty> AeonSerializeProperty for Vec<T> {
    /// The list of what `T` makes of each item, in order; the first item
    /// that `T` refuses fails the whole, with the failure of `T`.
    fn serialize_property(&self) -> (r: SerializeResult<AeonValue>)
        ensures
            match r {
                Ok(v) => v matches AeonValue::List(out) && rendered::<T>(self@, out@),
                Err(e) => exists|i: int| unrendered::<T>(self@, i, e),
            },
    {
        let mut out: Vec<AeonValue> = Vec::new();
        let mut i: usize = 0;
        while i < self.len()
            invariant
                i <= self.len(),
                out@.len() == i,
                forall|j: int|
                    0 <= j < i ==> call_ensures(
                        T::serialize_property,
                        (&#[trigger] self@[j],),
                        Ok::<AeonValue, AeonSerializeError>(out@[j]),
                    ),
            decreases self.len() - i,
        {
            match self[i].serialize_property() {
                Ok(v) => out.push(v),
                Err(e) => {
                    assert(unrendered::<T>(self@, i as int, e));
                    return Err(e);
                },
            }
            i += 1;
        }
        Ok(AeonValue::List(out))
    }

    /// The macros of `T`.
    fn create_property_macros(insert_self: bool) -> (r: Vec<AeonMacro>)
        ensures
            call_ensures(T::create_property_macros, (insert_self,), r),
    {
        T::create_property_macros(insert_self)
    }
}

/// What `T` makes of the value, nil and an absent value being `None`.
pub fn maybe<T: AeonDeserializeProperty>(thing: Option<AeonValue>) -> (r: DeserializeResult<
    Option<T>,
>)
    ensures
        match thing {
            None => r matches Ok(None),
            Some(v) => call_ensures(Option::<T>::from_property, (v,), r),
        },
{
    match thing {
        Some(v) => Option::<T>::from_property(v),
        None => Ok(None),
    }
}

/// What `T` makes of the value, which must be present.
pub fn expected<T: AeonDeserializeProperty>(thing: Option<AeonValue>) -> (r: DeserializeResult<T>)
    requires
        thing is Some,
    ensures
        call_ensures(T::from_property, (thing->Some_0,), r),
{
    T::from_property(thing.unwrap())
}

} // verus!
