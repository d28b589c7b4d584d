//! HTTP-style header name-value fields.
//!
//! Supports awareness of spaces before colon, folded lines, quoted-string and
//! encoded-word (RFC2047).
//!
//! The data structures do not perform validation on their own and are allowed
//! to hold potentially malformed or invalid character sequences.
mod format;
mod parse;
mod roundtrip;
mod util;

pub use format::{
    all_token, spec_formatted, spec_line_bytes, spec_name_bytes, spec_name_ok, spec_pair_ok,
    spec_partial_line, spec_separator, spec_value_bytes, spec_value_ok, FormatDataError,
    FormatDataErrorView, FormatError, HeaderFormatter,
};
pub use parse::{
    encoded_word_len, encoded_word_output, field_pair, field_pairs, field_value, folded_len,
    literal_len, quoted_len, rfc2047_encoded_word, spec_pair_of, spec_parse_header, value_step,
    word_space_len, HeaderParser,
};
pub use roundtrip::{
    field_read_back, field_readable, law_formatted_fields_parse_back, no_word_start, value_region,
};
pub use util::{
    boundary_end, lemma_boundary_end_bounds, limited, line_len, read_until_boundary, spec_trim_trailing_crlf, trim_trailing_crlf,
};

use vstd::prelude::*;

use crate::stringesc::{spec_decode, StringLosslessExt};
use crate::stringutil::{
    string_push_str, chars_to_string, is_token, is_token_byte, lower_chars, str_to_chars, string_push,
    to_ascii_lowercase,
};

verus! {

/// Abstract view of optional raw bytes.
pub open spec fn opt_bytes(o: Option<Vec<u8>>) -> Option<Seq<u8>> {
    match o {
        Some(v) => Some(v@),
        None => None,
    }
}

/// Abstract contents of a [FieldName].
pub struct FieldNameView {
    /// Lower-cased name used for lookups.
    pub normalized: Seq<char>,
    /// Name decoded.
    pub text: Seq<char>,
    /// Name in the original encoded format.
    pub raw: Option<Seq<u8>>,
}

/// Abstract contents of a [FieldValue].
pub struct FieldValueView {
    /// Value decoded.
    pub text: Seq<char>,
    /// Value in the original encoded format.
    pub raw: Option<Seq<u8>>,
}

/// Abstract contents of a [FieldPair].
pub struct FieldPairView {
    /// The name.
    pub name: FieldNameView,
    /// The value.
    pub value: FieldValueView,
}

/// Represents the name or key portion of a field.
///
/// The contents may contain malformed or invalid sequences.
#[derive(Debug)]
pub struct FieldName {
    /// Name lower-cased (ASCII), used for lookups.
    ///
    /// [FieldName::new] sets it from the text.
    pub normalized: String,
    /// Name decoded.
    pub text: String,
    /// Name in the original encoded format.
    pub raw: Option<Vec<u8>>,
}

impl View for FieldName {
    type V = FieldNameView;

    open spec fn view(&self) -> FieldNameView {
        FieldNameView { normalized: self.normalized@, text: self.text@, raw: opt_bytes(self.raw) }
    }
}

/// Represents the value portion of a field.
///
/// The contents may contain malformed or invalid sequences.
#[derive(Debug)]
pub struct FieldValue {
    /// Value decoded.
    pub text: String,
    /// Value in the original encoded format.
    pub raw: Option<Vec<u8>>,
}

impl View for FieldValue {
    type V = FieldValueView;

    open spec fn view(&self) -> FieldValueView {
        FieldValueView { text: self.text@, raw: opt_bytes(self.raw) }
    }
}

/// Represents a single name-value field.
#[derive(Debug)]
pub struct FieldPair {
    /// The name or key.
    pub name: FieldName,
    /// The value.
    pub value: FieldValue,
}

impl View for FieldPair {
    type V = FieldPairView;

    open spec fn view(&self) -> FieldPairView {
        FieldPairView { name: self.name@, value: self.value@ }
    }
}

/// View of a name built from text and optional raw bytes.
pub open spec fn name_view(text: Seq<char>, raw: Option<Seq<u8>>) -> FieldNameView {
    FieldNameView { normalized: lower_chars(text), text, raw }
}

/// A name character, or U+FFFD where it is not an ASCII token character.
pub open spec fn name_lossy_char(c: char) -> char {
    if (c as u32) < 128 && is_token_byte((c as u32) as u8) {
        c
    } else {
        '\u{FFFD}'
    }
}

/// A value with CR and LF replaced.
pub open spec fn value_lossy_char(c: char) -> char {
    if c == '\r' || c == '\n' {
        '\u{FFFD}'
    } else {
        c
    }
}

fn clone_opt_bytes(o: &Option<Vec<u8>>) -> (r: Option<Vec<u8>>)
    ensures
        opt_bytes(r) == opt_bytes(*o),
{
    match o {
        Some(v) => {
            let mut out: Vec<u8> = Vec::new();
            out.extend_from_slice(v.as_slice());
            assert(out@ =~= v@);
            Some(out)
        },
        None => None,
    }
}

/// Returns the text with every character that is not an ASCII token
/// character replaced by U+FFFD.
pub fn token_text_lossy(text: &str) -> (r: String)
    ensures
        r@ == text@.map_values(|c: char| name_lossy_char(c)),
{
    let chars = str_to_chars(text);
    let mut out = String::new();
    let mut i: usize = 0;
    while i < chars.len()
        invariant
            0 <= i <= chars@.len(),
            chars@ == text@,
            out@ == chars@.take(i as int).map_values(|c: char| name_lossy_char(c)),
        decreases chars@.len() - i,
    {
        let c = chars[i];
        let code = c as u32;
        if code < 128 && is_token(code as u8) {
            string_push(&mut out, c);
        } else {
            string_push(&mut out, '\u{FFFD}');
        }
        i = i + 1;
        assert(chars@.take(i as int).map_values(|c: char| name_lossy_char(c)) =~= chars@.take(
            i - 1,
        ).map_values(|c: char| name_lossy_char(c)).push(name_lossy_char(c)));
    }
    assert(chars@.take(i as int) =~= chars@);
    out
}

impl FieldName {
    /// Creates a `FieldName` with the given text and optional raw value.
    pub fn new(text: String, raw: Option<Vec<u8>>) -> (r: Self)
        ensures
            r@ == name_view(text@, opt_bytes(raw)),
    {
        let normalized = to_ascii_lowercase(text.as_str());
        Self { normalized, text, raw }
    }

    /// Returns a string with potential invalid characters replaced.
    ///
    /// This is intended for debugging purposes.
    pub fn to_text_lossy(&self) -> (r: String)
        ensures
            r@ == self.text@.map_values(|c: char| name_lossy_char(c)),
    {
        token_text_lossy(self.text.as_str())
    }

    /// Returns a copy of this name.
    pub fn duplicate(&self) -> (r: Self)
        ensures
            r@ == self@,
    {
        FieldName {
            normalized: self.normalized.clone(),
            text: self.text.clone(),
            raw: clone_opt_bytes(&self.raw),
        }
    }
}

impl FieldValue {
    /// Creates a `FieldValue` with the given text and optional raw value.
    pub fn new(text: String, raw: Option<Vec<u8>>) -> (r: Self)
        ensures
            r@ == (FieldValueView { text: text@, raw: opt_bytes(raw) }),
    {
        Self { text, raw }
    }

    /// Returns a string with potential invalid characters replaced.
    ///
    /// This is intended for debugging purposes.
    pub fn to_text_lossy(&self) -> (r: String)
        ensures
            r@ == self.text@.map_values(|c: char| value_lossy_char(c)),
    {
        let chars = str_to_chars(self.text.as_str());
        let mut out = String::new();
        let mut i: usize = 0;
        while i < chars.len()
            invariant
                0 <= i <= chars@.len(),
                chars@ == self.text@,
                out@ == chars@.take(i as int).map_values(|c: char| value_lossy_char(c)),
            decreases chars@.len() - i,
        {
            let c = chars[i];
            if c == '\r' || c == '\n' {
                string_push(&mut out, '\u{FFFD}');
            } else {
                string_push(&mut out, c);
            }
            i = i + 1;
            assert(chars@.take(i as int).map_values(|c: char| value_lossy_char(c)) =~= chars@.take(
                i - 1,
            ).map_values(|c: char| value_lossy_char(c)).push(value_lossy_char(c)));
        }
        assert(chars@.take(i as int) =~= chars@);
        out
    }

    /// Returns a copy of this value.
    pub fn duplicate(&self) -> (r: Self)
        ensures
            r@ == self@,
    {
        FieldValue { text: self.text.clone(), raw: clone_opt_bytes(&self.raw) }
    }
}

impl FieldPair {
    /// Creates a `FieldPair` using the given name and value.
    pub fn new(name: FieldName, value: FieldValue) -> (r: Self)
        ensures
            r@ == (FieldPairView { name: name@, value: value@ }),
    {
        Self { name, value }
    }

    /// Returns a copy of this field.
    pub fn duplicate(&self) -> (r: Self)
        ensures
            r@ == self@,
    {
        FieldPair { name: self.name.duplicate(), value: self.value.duplicate() }
    }
}

/// The text of one field line: `name: value` and CRLF, with invalid characters replaced.
pub open spec fn spec_pair_text(p: FieldPairView) -> Seq<char> {
    p.name.text.map_values(|c: char| name_lossy_char(c)) + seq![':', ' '] + p.value.text.map_values(
        |c: char| value_lossy_char(c),
    ) + seq!['\r', '\n']
}

/// The text of all field lines in order.
pub open spec fn spec_map_text(pairs: Seq<FieldPairView>) -> Seq<char>
    decreases pairs.len(),
{
    if pairs.len() == 0 {
        seq![]
    } else {
        spec_map_text(pairs.drop_last()) + spec_pair_text(pairs.last())
    }
}

impl FieldPair {
    /// Returns the field as text: `name: value` followed by CRLF.
    ///
    /// Invalid characters are replaced; this is intended for debugging purposes.
    pub fn to_string(&self) -> (r: String)
        ensures
            r@ == spec_pair_text(self@),
    {
        let mut out = self.name.to_text_lossy();
        string_push(&mut out, ':');
        string_push(&mut out, ' ');
        let value = self.value.to_text_lossy();
        string_push_str(&mut out, value.as_str());
        string_push(&mut out, '\r');
        string_push(&mut out, '\n');
        assert(out@ =~= spec_pair_text(self@));
        out
    }
}

/// Conversion of a value into a [FieldName].
pub trait IntoFieldName: Sized {
    /// The name produced by the conversion.
    spec fn field_name_view(&self) -> FieldNameView;

    /// Converts into a [FieldName].
    fn into_field_name(self) -> (r: FieldName)
        ensures
            r@ == self.field_name_view(),
    ;
}

/// Conversion of a value into a [FieldValue].
pub trait IntoFieldValue: Sized {
    /// The value produced by the conversion.
    spec fn field_value_view(&self) -> FieldValueView;

    /// Converts into a [FieldValue].
    fn into_field_value(self) -> (r: FieldValue)
        ensures
            r@ == self.field_value_view(),
    ;
}

impl IntoFieldName for FieldName {
    open spec fn field_name_view(&self) -> FieldNameView {
        self@
    }

    fn into_field_name(self) -> (r: FieldName) {
        self
    }
}

impl<'a> IntoFieldName for &'a str {
    open spec fn field_name_view(&self) -> FieldNameView {
        name_view(self@, None)
    }

    fn into_field_name(self) -> (r: FieldName) {
        FieldName::new(self.to_owned(), None)
    }
}

impl IntoFieldName for String {
    open spec fn field_name_view(&self) -> FieldNameView {
        name_view(self@, None)
    }

    fn into_field_name(self) -> (r: FieldName) {
        FieldName::new(self, None)
    }
}

impl<'a> IntoFieldName for &'a [u8] {
    open spec fn field_name_view(&self) -> FieldNameView {
        name_view(spec_decode(self@), Some(self@))
    }

    fn into_field_name(self) -> (r: FieldName) {
        let text = String::from_utf8_lossless(self);
        let mut raw: Vec<u8> = Vec::new();
        raw.extend_from_slice(self);
        assert(raw@ =~= self@);
        FieldName::new(text, Some(raw))
    }
}

impl IntoFieldName for Vec<u8> {
    open spec fn field_name_view(&self) -> FieldNameView {
        name_view(spec_decode(self@), Some(self@))
    }

    fn into_field_name(self) -> (r: FieldName) {
        let text = String::from_utf8_lossless(self.as_slice());
        FieldName::new(text, Some(self))
    }
}

impl IntoFieldValue for FieldValue {
    open spec fn field_value_view(&self) -> FieldValueView {
        self@
    }

    fn into_field_value(self) -> (r: FieldValue) {
        self
    }
}

impl<'a> IntoFieldValue for &'a str {
    open spec fn field_value_view(&self) -> FieldValueView {
        FieldValueView { text: self@, raw: None }
    }

    fn into_field_value(self) -> (r: FieldValue) {
        FieldValue::new(self.to_owned(), None)
    }
}

impl IntoFieldValue for String {
    open spec fn field_value_view(&self) -> FieldValueView {
        FieldValueView { text: self@, raw: None }
    }

    fn into_field_value(self) -> (r: FieldValue) {
        FieldValue::new(self, None)
    }
}

impl<'a> IntoFieldValue for &'a [u8] {
    open spec fn field_value_view(&self) -> FieldValueView {
        FieldValueView { text: spec_decode(self@), raw: Some(self@) }
    }

    fn into_field_value(self) -> (r: FieldValue) {
        let text = String::from_utf8_lossless(self);
        let mut raw: Vec<u8> = Vec::new();
        raw.extend_from_slice(self);
        assert(raw@ =~= self@);
        FieldValue::new(text, Some(raw))
    }
}

impl IntoFieldValue for Vec<u8> {
    open spec fn field_value_view(&self) -> FieldValueView {
        FieldValueView { text: spec_decode(self@), raw: Some(self@) }
    }

    fn into_field_value(self) -> (r: FieldValue) {
        let text = String::from_utf8_lossless(self.as_slice());
        FieldValue::new(text, Some(self))
    }
}

/// Whether the field's lookup key is `key`.
pub open spec fn has_key(p: FieldPairView, key: Seq<char>) -> bool {
    p.name.normalized == key
}

/// The first value whose name has the lookup key `key`.
pub open spec fn spec_get(pairs: Seq<FieldPairView>, key: Seq<char>) -> Option<FieldValueView>
    decreases pairs.len(),
{
    if pairs.len() == 0 {
        None
    } else if has_key(pairs[0], key) {
        Some(pairs[0].value)
    } else {
        spec_get(pairs.drop_first(), key)
    }
}

/// All values, in order, whose name has the lookup key `key`.
pub open spec fn spec_get_all(pairs: Seq<FieldPairView>, key: Seq<char>) -> Seq<FieldValueView> {
    pairs.filter(|p: FieldPairView| has_key(p, key)).map_values(|p: FieldPairView| p.value)
}

/// The fields after inserting `pair`: all fields with its key removed, then `pair` appended.
pub open spec fn spec_insert(pairs: Seq<FieldPairView>, pair: FieldPairView) -> Seq<FieldPairView> {
    pairs.filter(|p: FieldPairView| !has_key(p, pair.name.normalized)).push(pair)
}

/// The fields after moving those with key `key` to the front, keeping relative order.
pub open spec fn spec_reorder_front(pairs: Seq<FieldPairView>, key: Seq<char>) -> Seq<
    FieldPairView,
> {
    pairs.filter(|p: FieldPairView| has_key(p, key)) + pairs.filter(
        |p: FieldPairView| !has_key(p, key),
    )
}

/// Multimap of name-value fields.
///
/// This container is a multimap where multiple values may be associated with
/// the same name. Names are compared case-insensitively (ASCII).
#[derive(Debug)]
pub struct HeaderMap {
    pairs: Vec<FieldPair>,
}

impl View for HeaderMap {
    type V = Seq<FieldPairView>;

    closed spec fn view(&self) -> Seq<FieldPairView> {
        self.pairs@.map_values(|p: FieldPair| p@)
    }
}

impl HeaderMap {
    /// Creates an empty `HeaderMap`.
    pub fn new() -> (r: Self)
        ensures
            r@ == Seq::<FieldPairView>::empty(),
    {
        let r = Self { pairs: Vec::new() };
        assert(r@ =~= Seq::<FieldPairView>::empty());
        r
    }

    /// Creates a `HeaderMap` holding the given fields in order.
    pub fn from_pairs(pairs: Vec<FieldPair>) -> (r: Self)
        ensures
            r@ == pairs@.map_values(|p: FieldPair| p@),
    {
        Self { pairs }
    }

    /// Returns the fields in order.
    pub fn into_pairs(self) -> (r: Vec<FieldPair>)
        ensures
            r@.map_values(|p: FieldPair| p@) == self@,
    {
        self.pairs
    }

    /// Returns all fields as text lines, in order.
    ///
    /// Invalid characters are replaced; this is intended for debugging purposes.
    pub fn to_string(&self) -> (r: String)
        ensures
            r@ == spec_map_text(self@),
    {
        let mut out = String::new();
        let mut i: usize = 0;
        while i < self.pairs.len()
            invariant
                0 <= i <= self@.len(),
                self@.len() == self.pairs@.len(),
                out@ == spec_map_text(self@.take(i as int)),
            decreases self.pairs@.len() - i,
        {
            let line = self.pairs[i].to_string();
            string_push_str(&mut out, line.as_str());
            proof {
                assert(self@.take(i + 1).drop_last() =~= self@.take(i as int));
            }
            i = i + 1;
        }
        assert(self@.take(i as int) =~= self@);
        out
    }

    /// Returns a copy of this map.
    pub fn duplicate(&self) -> (r: Self)
        ensures
            r@ == self@,
    {
        let mut pairs: Vec<FieldPair> = Vec::new();
        let mut i: usize = 0;
        while i < self.pairs.len()
            invariant
                0 <= i <= self@.len(),
                self@.len() == self.pairs@.len(),
                pairs@.map_values(|p: FieldPair| p@) == self@.take(i as int),
            decreases self.pairs@.len() - i,
        {
            let d = self.pairs[i].duplicate();
            assert(d@ == self@[i as int]);
            let ghost before = pairs@;
            pairs.push(d);
            assert(pairs@ == before.push(d));
            assert(pairs@.map_values(|p: FieldPair| p@) =~= before.map_values(|p: FieldPair| p@).push(
                d@,
            ));
            assert(self@.take(i + 1) =~= self@.take(i as int).push(self@[i as int]));
            i = i + 1;
        }
        assert(self@.take(i as int) =~= self@);
        HeaderMap { pairs }
    }

    /// Returns the number of fields.
    pub fn len(&self) -> (r: usize)
        ensures
            r == self@.len(),
    {
        self.pairs.len()
    }

    /// Returns whether the container has no fields.
    pub fn is_empty(&self) -> (r: bool)
        ensures
            r == (self@.len() == 0),
    {
        self.len() == 0
    }

    /// Returns all fields in order, as a slice.
    pub(crate) fn as_slice(&self) -> (r: &[FieldPair])
        ensures
            r@.map_values(|p: FieldPair| p@) == self@,
    {
        self.pairs.as_slice()
    }

    /// Returns an iterator of the fields in order.
    pub fn iter(&self) -> (r: HeaderMapIter<'_>)
        ensures
            r.remaining() == self@,
    {
        assert(self@.skip(0) =~= self@);
        HeaderMapIter { pairs: self.pairs.as_slice(), index: 0 }
    }

    /// Returns whether a field with the given name exists in the container.
    pub fn contains_key(&self, name: &str) -> (r: bool)
        ensures
            r == spec_get(self@, lower_chars(name@)) is Some,
    {
        self.get(name).is_some()
    }

    fn index_of_from(&self, key: &Vec<char>, start: usize) -> (r: Option<usize>)
        requires
            start <= self@.len(),
        ensures
            match r {
                Some(i) => start <= i < self@.len() && has_key(self@[i as int], key@) && forall|
                    j: int,
                | start <= j < i ==> !has_key(#[trigger] self@[j], key@),
                None => forall|j: int| start <= j < self@.len() ==> !has_key(#[trigger] self@[j], key@),
            },
    {
        let mut i = start;
        while i < self.pairs.len()
            invariant
                start <= i <= self@.len(),
                self@.len() == self.pairs@.len(),
                forall|j: int| start <= j < i ==> !has_key(#[trigger] self@[j], key@),
            decreases self.pairs@.len() - i,
        {
            let chars = str_to_chars(self.pairs[i].name.normalized.as_str());
            if chars_eq(&chars, key) {
                return Some(i);
            }
            i = i + 1;
        }
        None
    }

    /// Returns the first field value for the given name.
    pub fn get(&self, name: &str) -> (r: Option<&FieldValue>)
        ensures
            match r {
                Some(v) => spec_get(self@, lower_chars(name@)) == Some(v@),
                None => spec_get(self@, lower_chars(name@)) is None,
            },
    {
        let key = lower_key(name);
        let found = self.index_of_from(&key, 0);
        proof {
            lemma_spec_get_first(self@, key@, found);
        }
        match found {
            Some(i) => Some(&self.pairs[i].value),
            None => None,
        }
    }

    /// Returns an iterator of the field values for the given name.
    pub fn get_all(&self, name: &str) -> (r: FieldValuesIter<'_>)
        ensures
            r.remaining() == spec_get_all(self@, lower_chars(name@)),
    {
        let key = lower_key(name);
        assert(self@.skip(0) =~= self@);
        FieldValuesIter { key, pairs: self.pairs.as_slice(), index: 0 }
    }

    /// Returns all the field values for the given name.
    pub(crate) fn all_values(&self, name: &str) -> (r: Vec<&FieldValue>)
        ensures
            r@.map_values(|v: &FieldValue| v@) == spec_get_all(self@, lower_chars(name@)),
    {
        let key = lower_key(name);
        let mut out: Vec<&FieldValue> = Vec::new();
        let mut i: usize = 0;
        while i < self.pairs.len()
            invariant
                0 <= i <= self@.len(),
                self@.len() == self.pairs@.len(),
                out@.map_values(|v: &FieldValue| v@) == spec_get_all(self@.take(i as int), key@),
            decreases self.pairs@.len() - i,
        {
            let chars = str_to_chars(self.pairs[i].name.normalized.as_str());
            proof {
                lemma_get_all_push(self@.take(i as int), self@[i as int], key@);
                assert(self@.take(i + 1) =~= self@.take(i as int).push(self@[i as int]));
            }
            if chars_eq(&chars, &key) {
                out.push(&self.pairs[i].value);
                assert(out@.map_values(|v: &FieldValue| v@) =~= old_map(out@));
            }
            i = i + 1;
        }
        assert(self@.take(i as int) =~= self@);
        out
    }

    /// Returns the the first value as a string for the given name.
    pub fn get_str(&self, name: &str) -> (r: Option<&str>)
        ensures
            match r {
                Some(s) => exists|v: FieldValueView|
                    spec_get(self@, lower_chars(name@)) == Some(v) && v.text == s@,
                None => spec_get(self@, lower_chars(name@)) is None,
            },
    {
        match self.get(name) {
            Some(field) => Some(field.text.as_str()),
            None => None,
        }
    }

    /// Add a field preserving any fields matching the given name.
    pub fn append<N: IntoFieldName, V: IntoFieldValue>(&mut self, name: N, value: V)
        ensures
            final(self)@ == old(self)@.push(
                FieldPairView { name: name.field_name_view(), value: value.field_value_view() },
            ),
    {
        let pair = FieldPair::new(name.into_field_name(), value.into_field_value());
        self.pairs.push(pair);
        assert(self@ =~= old(self)@.push(
            FieldPairView { name: name.field_name_view(), value: value.field_value_view() },
        ));
    }

    /// Remove any existing field with the given name and add the given field.
    pub fn insert<N: IntoFieldName, V: IntoFieldValue>(&mut self, name: N, value: V)
        ensures
            final(self)@ == spec_insert(
                old(self)@,
                FieldPairView { name: name.field_name_view(), value: value.field_value_view() },
            ),
    {
        let name = name.into_field_name();
        let value = value.into_field_value();
        let key = str_to_chars(name.normalized.as_str());
        let mut old_pairs: Vec<FieldPair> = Vec::new();
        std::mem::swap(&mut old_pairs, &mut self.pairs);
        let (_matched, others) = partition_by_key(old_pairs, &key);
        self.pairs = others;
        self.pairs.push(FieldPair::new(name, value));
        assert(self@ =~= spec_insert(
            old(self)@,
            FieldPairView { name: name.field_name_view(), value: value.field_value_view() },
        ));
    }

    /// Moves the fields to the front of the list order.
    ///
    /// Some servers may be sensitive to fields such as "Host" or "Date" being
    /// the first field, so this function provides a way to easily move
    /// them to the front. The relative order within both groups is kept.
    pub fn reorder_front(&mut self, name: &str)
        ensures
            final(self)@ == spec_reorder_front(old(self)@, lower_chars(name@)),
    {
        let key = lower_key(name);
        let mut old_pairs: Vec<FieldPair> = Vec::new();
        std::mem::swap(&mut old_pairs, &mut self.pairs);
        let (mut matched, mut others) = partition_by_key(old_pairs, &key);
        let ghost m = matched@;
        let ghost o = others@;
        matched.append(&mut others);
        assert(matched@ =~= m + o);
        self.pairs = matched;
        assert(self@ =~= spec_reorder_front(old(self)@, lower_chars(name@)));
    }
}

/// Splits the fields into those with lookup key `key` and the others, keeping order.
fn partition_by_key(pairs: Vec<FieldPair>, key: &Vec<char>) -> (r: (Vec<FieldPair>, Vec<FieldPair>))
    ensures
        r.0@.map_values(|p: FieldPair| p@) == pairs@.map_values(|p: FieldPair| p@).filter(
            |p: FieldPairView| has_key(p, key@),
        ),
        r.1@.map_values(|p: FieldPair| p@) == pairs@.map_values(|p: FieldPair| p@).filter(
            |p: FieldPairView| !has_key(p, key@),
        ),
{
    let ghost all = pairs@.map_values(|p: FieldPair| p@);
    let ghost yes = |p: FieldPairView| has_key(p, key@);
    let ghost no = |p: FieldPairView| !has_key(p, key@);
    let mut remaining = pairs;
    let mut matched: Vec<FieldPair> = Vec::new();
    let mut others: Vec<FieldPair> = Vec::new();
    let mut k: usize = 0;
    let total = remaining.len();
    assert(all.take(0).filter(yes) =~= Seq::<FieldPairView>::empty()) by {
        reveal(Seq::filter);
    }
    assert(all.take(0).filter(no) =~= Seq::<FieldPairView>::empty()) by {
        reveal(Seq::filter);
    }
    while k < total
        invariant
            0 <= k <= total == all.len(),
            remaining@.map_values(|p: FieldPair| p@) == all.skip(k as int),
            matched@.map_values(|p: FieldPair| p@) == all.take(k as int).filter(yes),
            others@.map_values(|p: FieldPair| p@) == all.take(k as int).filter(no),
            yes == (|p: FieldPairView| has_key(p, key@)),
            no == (|p: FieldPairView| !has_key(p, key@)),
        decreases total - k,
    {
        assert(remaining@.map_values(|p: FieldPair| p@).len() == all.len() - k);
        let ghost prev = remaining@;
        let p = remaining.remove(0);
        proof {
            assert forall|i: int| 0 <= i < remaining@.len() implies #[trigger] remaining@[i]@ == all[k
                + 1 + i] by {
                assert(remaining@[i] == prev[i + 1]);
                assert(prev.map_values(|p: FieldPair| p@)[i + 1] == all.skip(k as int)[i + 1]);
            }
            assert(p@ == all.skip(k as int)[0]);
            assert(all.take(k + 1) =~= all.take(k as int).push(p@));
            lemma_filter_push(all.take(k as int), yes, p@);
            lemma_filter_push(all.take(k as int), no, p@);
            assert(remaining@.map_values(|p: FieldPair| p@) =~= all.skip(k + 1));
        }
        let chars = str_to_chars(p.name.normalized.as_str());
        if chars_eq(&chars, key) {
            matched.push(p);
            assert(matched@.map_values(|p: FieldPair| p@) =~= all.take(k + 1).filter(yes));
        } else {
            others.push(p);
            assert(others@.map_values(|p: FieldPair| p@) =~= all.take(k + 1).filter(no));
        }
        k = k + 1;
    }
    assert(all.take(k as int) =~= all);
    (matched, others)
}

/// Filtering a sequence extended by one element.
pub proof fn lemma_filter_push<A>(s: Seq<A>, f: spec_fn(A) -> bool, a: A)
    ensures
        s.push(a).filter(f) == if f(a) {
            s.filter(f).push(a)
        } else {
            s.filter(f)
        },
{
    reveal(Seq::filter);
    assert(s.push(a).drop_last() =~= s);
}

/// Helper: the map of values of a vector of value references.
pub open spec fn old_map(s: Seq<&FieldValue>) -> Seq<FieldValueView> {
    s.map_values(|v: &FieldValue| v@)
}

proof fn lemma_spec_get_first(pairs: Seq<FieldPairView>, key: Seq<char>, found: Option<usize>)
    requires
        match found {
            Some(i) => 0 <= i < pairs.len() && has_key(pairs[i as int], key) && forall|j: int|
                0 <= j < i ==> !has_key(#[trigger] pairs[j], key),
            None => forall|j: int| 0 <= j < pairs.len() ==> !has_key(#[trigger] pairs[j], key),
        },
    ensures
        match found {
            Some(i) => spec_get(pairs, key) == Some(pairs[i as int].value),
            None => spec_get(pairs, key) is None,
        },
    decreases pairs.len(),
{
    if pairs.len() > 0 && !has_key(pairs[0], key) {
        let next = match found {
            Some(i) => Some((i - 1) as usize),
            None => None,
        };
        assert forall|j: int| 0 <= j < pairs.drop_first().len() implies !has_key(
            #[trigger] pairs.drop_first()[j],
            key,
        ) || (found is Some && j + 1 >= found->0) by {
            assert(pairs.drop_first()[j] == pairs[j + 1]);
        }
        lemma_spec_get_first(pairs.drop_first(), key, next);
    }
}

proof fn lemma_get_all_push(pairs: Seq<FieldPairView>, p: FieldPairView, key: Seq<char>)
    ensures
        spec_get_all(pairs.push(p), key) == if has_key(p, key) {
            spec_get_all(pairs, key).push(p.value)
        } else {
            spec_get_all(pairs, key)
        },
{
    let f = |q: FieldPairView| has_key(q, key);
    lemma_filter_push(pairs, f, p);
    assert(spec_get_all(pairs.push(p), key) =~= if has_key(p, key) {
        spec_get_all(pairs, key).push(p.value)
    } else {
        spec_get_all(pairs, key)
    });
}

fn lower_key(name: &str) -> (r: Vec<char>)
    ensures
        r@ == lower_chars(name@),
{
    let chars = str_to_chars(name);
    crate::stringutil::lower_char_vec(chars.as_slice())
}

fn chars_eq(a: &Vec<char>, b: &Vec<char>) -> (r: bool)
    ensures
        r == (a@ == b@),
{
    if a.len() != b.len() {
        return false;
    }
    let mut i: usize = 0;
    while i < a.len()
        invariant
            0 <= i <= a@.len(),
            a@.len() == b@.len(),
            forall|j: int| 0 <= j < i ==> a@[j] == b@[j],
        decreases a@.len() - i,
    {
        if a[i] != b[i] {
            return false;
        }
        i = i + 1;
    }
    assert(a@ =~= b@);
    true
}

} // verus!

verus! {

/// Filtering keeps nothing when no element satisfies the predicate.
pub proof fn lemma_filter_none<A>(s: Seq<A>, f: spec_fn(A) -> bool)
    requires
        forall|i: int| 0 <= i < s.len() ==> !f(#[trigger] s[i]),
    ensures
        s.filter(f) == Seq::<A>::empty(),
    decreases s.len(),
{
    reveal(Seq::filter);
    if s.len() > 0 {
        assert forall|i: int| 0 <= i < s.drop_last().len() implies !f(#[trigger] s.drop_last()[i]) by {
            assert(s.drop_last()[i] == s[i]);
        }
        lemma_filter_none(s.drop_last(), f);
    }
}

/// Filtering keeps everything when every element satisfies the predicate.
pub proof fn lemma_filter_all<A>(s: Seq<A>, f: spec_fn(A) -> bool)
    requires
        forall|i: int| 0 <= i < s.len() ==> f(#[trigger] s[i]),
    ensures
        s.filter(f) == s,
    decreases s.len(),
{
    reveal(Seq::filter);
    if s.len() > 0 {
        assert forall|i: int| 0 <= i < s.drop_last().len() implies f(#[trigger] s.drop_last()[i]) by {
            assert(s.drop_last()[i] == s[i]);
        }
        lemma_filter_all(s.drop_last(), f);
        assert(s.drop_last().push(s.last()) =~= s);
    }
}

/// Filtering twice is filtering by both predicates.
pub proof fn lemma_filter_filter<A>(s: Seq<A>, f: spec_fn(A) -> bool, g: spec_fn(A) -> bool)
    ensures
        s.filter(f).filter(g) == s.filter(|x: A| f(x) && g(x)),
    decreases s.len(),
{
    reveal(Seq::filter);
    if s.len() > 0 {
        lemma_filter_filter(s.drop_last(), f, g);
        let a = s.last();
        lemma_filter_push(s.drop_last().filter(f), g, a);
        assert(s.drop_last().push(a) =~= s);
    }
}

/// Every element of a filtered sequence satisfies the predicate.
pub proof fn lemma_filter_holds<A>(s: Seq<A>, f: spec_fn(A) -> bool)
    ensures
        forall|i: int| 0 <= i < s.filter(f).len() ==> f(#[trigger] s.filter(f)[i]),
{
    broadcast use vstd::seq_lib::group_filter_ensures;

}

proof fn lemma_get_push(pairs: Seq<FieldPairView>, p: FieldPairView, key: Seq<char>)
    ensures
        spec_get(pairs.push(p), key) == if spec_get(pairs, key) is Some {
            spec_get(pairs, key)
        } else if has_key(p, key) {
            Some(p.value)
        } else {
            None
        },
    decreases pairs.len(),
{
    if pairs.len() > 0 {
        assert(pairs.push(p).drop_first() =~= pairs.drop_first().push(p));
        lemma_get_push(pairs.drop_first(), p, key);
    } else {
        assert(pairs.push(p).drop_first() =~= pairs);
    }
}

proof fn lemma_get_none(pairs: Seq<FieldPairView>, key: Seq<char>)
    requires
        forall|i: int| 0 <= i < pairs.len() ==> !has_key(#[trigger] pairs[i], key),
    ensures
        spec_get(pairs, key) is None,
    decreases pairs.len(),
{
    if pairs.len() > 0 {
        assert forall|i: int| 0 <= i < pairs.drop_first().len() implies !has_key(
            #[trigger] pairs.drop_first()[i],
            key,
        ) by {
            assert(pairs.drop_first()[i] == pairs[i + 1]);
        }
        lemma_get_none(pairs.drop_first(), key);
    }
}

/// After inserting a field, looking up its name gives the inserted value.
pub proof fn law_insert_then_get(pairs: Seq<FieldPairView>, pair: FieldPairView)
    ensures
        spec_get(spec_insert(pairs, pair), pair.name.normalized) == Some(pair.value),
{
    let key = pair.name.normalized;
    let kept = pairs.filter(|p: FieldPairView| !has_key(p, key));
    lemma_filter_holds(pairs, |p: FieldPairView| !has_key(p, key));
    lemma_get_none(kept, key);
    lemma_get_push(kept, pair, key);
}

/// After inserting a field, its name holds exactly one value: the inserted one.
pub proof fn law_insert_single_value(pairs: Seq<FieldPairView>, pair: FieldPairView)
    ensures
        spec_get_all(spec_insert(pairs, pair), pair.name.normalized) == seq![pair.value],
{
    let key = pair.name.normalized;
    let yes = |p: FieldPairView| has_key(p, key);
    let no = |p: FieldPairView| !has_key(p, key);
    let kept = pairs.filter(no);
    lemma_filter_holds(pairs, no);
    lemma_filter_none(kept, yes);
    lemma_filter_push(kept, yes, pair);
    assert(spec_get_all(spec_insert(pairs, pair), key) =~= seq![pair.value]);
}

/// Inserting a field leaves the values of every other name unchanged.
pub proof fn law_insert_keeps_other_names(
    pairs: Seq<FieldPairView>,
    pair: FieldPairView,
    key: Seq<char>,
)
    requires
        key != pair.name.normalized,
    ensures
        spec_get_all(spec_insert(pairs, pair), key) == spec_get_all(pairs, key),
{
    let k = pair.name.normalized;
    let yes = |p: FieldPairView| has_key(p, key);
    let no = |p: FieldPairView| !has_key(p, k);
    lemma_filter_push(pairs.filter(no), yes, pair);
    lemma_filter_filter(pairs, no, yes);
    assert((|x: FieldPairView| no(x) && yes(x)) =~= yes);
}

/// Appending a field adds its value at the end of its name's values and
/// leaves the first value of an already present name unchanged.
pub proof fn law_append_adds_last(pairs: Seq<FieldPairView>, pair: FieldPairView, key: Seq<char>)
    ensures
        spec_get_all(pairs.push(pair), key) == if has_key(pair, key) {
            spec_get_all(pairs, key).push(pair.value)
        } else {
            spec_get_all(pairs, key)
        },
        spec_get(pairs, key) is Some ==> spec_get(pairs.push(pair), key) == spec_get(pairs, key),
{
    lemma_get_all_push(pairs, pair, key);
    lemma_get_push(pairs, pair, key);
}

/// Moving a name's fields to the front keeps the number of fields and the
/// values, in order, of every name.
pub proof fn law_reorder_front_keeps_values(
    pairs: Seq<FieldPairView>,
    front: Seq<char>,
    key: Seq<char>,
)
    ensures
        spec_reorder_front(pairs, front).len() == pairs.len(),
        spec_get_all(spec_reorder_front(pairs, front), key) == spec_get_all(pairs, key),
{
    let f = |p: FieldPairView| has_key(p, front);
    let nf = |p: FieldPairView| !has_key(p, front);
    let g = |p: FieldPairView| has_key(p, key);
    lemma_filter_partition_len(pairs, f, nf);
    Seq::filter_distributes_over_add(pairs.filter(f), pairs.filter(nf), g);
    lemma_filter_filter(pairs, f, g);
    lemma_filter_filter(pairs, nf, g);
    if front == key {
        assert((|x: FieldPairView| f(x) && g(x)) =~= g);
        lemma_filter_holds(pairs, nf);
        lemma_filter_none(pairs.filter(nf), g);
        assert(pairs.filter(f).filter(g) + pairs.filter(nf).filter(g) =~= pairs.filter(g));
    } else {
        assert((|x: FieldPairView| nf(x) && g(x)) =~= g);
        lemma_filter_holds(pairs, f);
        lemma_filter_none(pairs.filter(f), g);
        assert(pairs.filter(f).filter(g) + pairs.filter(nf).filter(g) =~= pairs.filter(g));
    }
}

proof fn lemma_filter_partition_len(
    s: Seq<FieldPairView>,
    f: spec_fn(FieldPairView) -> bool,
    nf: spec_fn(FieldPairView) -> bool,
)
    requires
        forall|x: FieldPairView| #[trigger] nf(x) == !f(x),
    ensures
        s.filter(f).len() + s.filter(nf).len() == s.len(),
    decreases s.len(),
{
    reveal(Seq::filter);
    if s.len() > 0 {
        lemma_filter_partition_len(s.drop_last(), f, nf);
    }
}

/// Lookups are case-insensitive: names equal up to ASCII case find the same value.
pub proof fn law_lookup_ignores_case(pairs: Seq<FieldPairView>, a: Seq<char>, b: Seq<char>)
    requires
        lower_chars(a) == lower_chars(b),
    ensures
        spec_get(pairs, lower_chars(a)) == spec_get(pairs, lower_chars(b)),
        spec_get_all(pairs, lower_chars(a)) == spec_get_all(pairs, lower_chars(b)),
{
}


/// Iterator of the fields of a [HeaderMap], in order.
pub struct HeaderMapIter<'a> {
    pairs: &'a [FieldPair],
    index: usize,
}

impl<'a> HeaderMapIter<'a> {
    /// The fields still to be yielded, in order.
    pub closed spec fn remaining(&self) -> Seq<FieldPairView> {
        let all = self.pairs@.map_values(|p: FieldPair| p@);
        if self.index <= all.len() {
            all.skip(self.index as int)
        } else {
            seq![]
        }
    }

    /// Returns the next field, or `None` after the last.
    pub fn next(&mut self) -> (r: Option<&'a FieldPair>)
        ensures
            old(self).remaining().len() == 0 ==> r is None && final(self).remaining().len() == 0,
            old(self).remaining().len() > 0 ==> (r matches Some(p) && p@ == old(self).remaining()[0]
                && final(self).remaining() == old(self).remaining().drop_first()),
    {
        if self.index < self.pairs.len() {
            let item = &self.pairs[self.index];
            self.index = self.index + 1;
            proof {
                let all = old(self).pairs@.map_values(|p: FieldPair| p@);
                assert(all.skip(self.index as int) =~= all.skip(old(self).index as int).drop_first());
            }
            Some(item)
        } else {
            None
        }
    }
}

/// The values for a key of a field before others: its own value first when it has the key.
proof fn lemma_get_all_prepend(p: FieldPairView, t: Seq<FieldPairView>, key: Seq<char>)
    ensures
        spec_get_all(seq![p] + t, key) == if has_key(p, key) {
            seq![p.value] + spec_get_all(t, key)
        } else {
            spec_get_all(t, key)
        },
    decreases t.len(),
{
    if t.len() == 0 {
        assert(seq![p] + t =~= Seq::<FieldPairView>::empty().push(p));
        lemma_get_all_push(Seq::<FieldPairView>::empty(), p, key);
        assert(spec_get_all(Seq::<FieldPairView>::empty(), key) =~= Seq::<FieldValueView>::empty())
            by {
            lemma_filter_none(Seq::<FieldPairView>::empty(), |q: FieldPairView| has_key(q, key));
        }
    } else {
        let t0 = t.drop_last();
        let x = t.last();
        lemma_get_all_prepend(p, t0, key);
        assert(seq![p] + t =~= (seq![p] + t0).push(x));
        assert(t =~= t0.push(x));
        lemma_get_all_push(seq![p] + t0, x, key);
        lemma_get_all_push(t0, x, key);
        if has_key(p, key) {
            assert(spec_get_all(seq![p] + t, key) =~= seq![p.value] + spec_get_all(t, key));
        }
    }
}

/// Iterator of the values of a [HeaderMap] for one name, in order.
pub struct FieldValuesIter<'a> {
    key: Vec<char>,
    pairs: &'a [FieldPair],
    index: usize,
}

impl<'a> FieldValuesIter<'a> {
    /// The values still to be yielded, in order.
    pub closed spec fn remaining(&self) -> Seq<FieldValueView> {
        let all = self.pairs@.map_values(|p: FieldPair| p@);
        if self.index <= all.len() {
            spec_get_all(all.skip(self.index as int), self.key@)
        } else {
            seq![]
        }
    }

    /// Returns the next value, or `None` after the last.
    pub fn next(&mut self) -> (r: Option<&'a FieldValue>)
        ensures
            old(self).remaining().len() == 0 ==> r is None && final(self).remaining().len() == 0,
            old(self).remaining().len() > 0 ==> (r matches Some(v) && v@ == old(self).remaining()[0]
                && final(self).remaining() == old(self).remaining().drop_first()),
    {
        let ghost all = self.pairs@.map_values(|p: FieldPair| p@);
        if self.index > self.pairs.len() {
            return None;
        }
        while self.index < self.pairs.len()
            invariant
                old(self).index <= self.index <= self.pairs@.len(),
                self.pairs == old(self).pairs,
                self.key == old(self).key,
                all == self.pairs@.map_values(|p: FieldPair| p@),
                spec_get_all(all.skip(self.index as int), self.key@) == old(self).remaining(),
            decreases self.pairs@.len() - self.index,
        {
            let i = self.index;
            let chars = str_to_chars(self.pairs[i].name.normalized.as_str());
            proof {
                let s = all.skip(i as int);
                assert(s =~= seq![all[i as int]] + all.skip(i + 1));
                lemma_get_all_prepend(all[i as int], all.skip(i + 1), self.key@);
            }
            self.index = i + 1;
            if chars_eq(&chars, &self.key) {
                return Some(&self.pairs[i].value);
            }
        }
        assert(all.skip(self.index as int) =~= Seq::<FieldPairView>::empty());
        proof {
            lemma_filter_none(Seq::<FieldPairView>::empty(), |q: FieldPairView| has_key(q, self.key@));
        }
        None
    }
}

} // verus!
