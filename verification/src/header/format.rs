//! Encoding of header fields for network data exchange.
use vstd::prelude::*;
use vstd::utf8::encode_utf8;

use super::{FieldName, FieldNameView, FieldPair, FieldPairView, FieldValue, FieldValueView, HeaderMap};
use crate::stringesc::{spec_encode, StringLosslessExt};
use crate::stringutil::{is_token, is_token_byte};

verus! {

/// Error during formatting indicating invalid character sequences.
#[derive(Debug)]
pub struct FormatDataError {
    line: u64,
    name: Option<FieldName>,
    value: Option<FieldValue>,
}

/// Abstract contents of a [FormatDataError].
pub struct FormatDataErrorView {
    /// Position of the field.
    pub line: u64,
    /// The invalid name, when the name was invalid.
    pub name: Option<FieldNameView>,
    /// The invalid value, when the value was invalid.
    pub value: Option<FieldValueView>,
}

impl View for FormatDataError {
    type V = FormatDataErrorView;

    closed spec fn view(&self) -> FormatDataErrorView {
        FormatDataErrorView {
            line: self.line,
            name: match self.name {
                Some(n) => Some(n@),
                None => None,
            },
            value: match self.value {
                Some(v) => Some(v@),
                None => None,
            },
        }
    }
}

impl FormatDataError {
    /// Position of the name value field.
    pub fn line(&self) -> (r: u64)
        ensures
            r == self@.line,
    {
        self.line
    }

    /// The invalid name field.
    pub fn name(&self) -> (r: Option<&FieldName>)
        ensures
            match r {
                Some(n) => self@.name == Some(n@),
                None => self@.name is None,
            },
    {
        self.name.as_ref()
    }

    /// The invalid value field.
    pub fn value(&self) -> (r: Option<&FieldValue>)
        ensures
            match r {
                Some(v) => self@.value == Some(v@),
                None => self@.value is None,
            },
    {
        self.value.as_ref()
    }
}

/// Represents an error that may occur during formatting of a [HeaderMap].
#[derive(Debug)]
pub enum FormatError {
    /// Input data error.
    Data(FormatDataError),
}

/// Encodes headers suitable for network data exchange.
#[derive(Debug)]
pub struct HeaderFormatter {
    /// Whether text is encoded with the lossless scheme.
    pub lossless_scheme: bool,
    /// Whether raw values are used when available.
    pub use_raw: bool,
    /// Whether invalid character sequences are let through.
    pub disable_validation: bool,
}

/// Bytes written for a name.
pub open spec fn spec_name_bytes(f: HeaderFormatter, n: FieldNameView) -> Seq<u8> {
    match n.raw {
        Some(raw) if f.use_raw => raw,
        _ => if f.lossless_scheme {
            spec_encode(n.text)
        } else {
            encode_utf8(n.text)
        },
    }
}

/// Bytes written for a value.
pub open spec fn spec_value_bytes(f: HeaderFormatter, v: FieldValueView) -> Seq<u8> {
    match v.raw {
        Some(raw) if f.use_raw => raw,
        _ => if f.lossless_scheme {
            spec_encode(v.text)
        } else {
            encode_utf8(v.text)
        },
    }
}

/// Bytes written between name and value.
pub open spec fn spec_separator(f: HeaderFormatter, p: FieldPairView) -> Seq<u8> {
    if f.use_raw && p.value.raw is Some {
        seq![0x3Au8]
    } else {
        seq![0x3Au8, 0x20u8]
    }
}

/// Bytes of one field line.
pub open spec fn spec_line_bytes(f: HeaderFormatter, p: FieldPairView) -> Seq<u8> {
    spec_name_bytes(f, p.name) + spec_separator(f, p) + spec_value_bytes(f, p.value) + seq![
        0x0Du8,
        0x0Au8,
    ]
}

/// Bytes of all field lines in order.
pub open spec fn spec_formatted(f: HeaderFormatter, pairs: Seq<FieldPairView>) -> Seq<u8>
    decreases pairs.len(),
{
    if pairs.len() == 0 {
        seq![]
    } else {
        spec_formatted(f, pairs.drop_last()) + spec_line_bytes(f, pairs.last())
    }
}

/// Whether the name may be written.
pub open spec fn spec_name_ok(f: HeaderFormatter, p: FieldPairView) -> bool {
    f.disable_validation || forall|i: int|
        0 <= i < spec_name_bytes(f, p.name).len() ==> is_token_byte(
            #[trigger] spec_name_bytes(f, p.name)[i],
        )
}

/// Whether the value may be written.
pub open spec fn spec_value_ok(f: HeaderFormatter, p: FieldPairView) -> bool {
    f.disable_validation || forall|i: int|
        0 <= i < spec_value_bytes(f, p.value).len() ==> #[trigger] spec_value_bytes(f, p.value)[i]
            != 0x0D && spec_value_bytes(f, p.value)[i] != 0x0A
}

/// Whether the field may be written.
pub open spec fn spec_pair_ok(f: HeaderFormatter, p: FieldPairView) -> bool {
    spec_name_ok(f, p) && spec_value_ok(f, p)
}

/// Bytes written before the error for the field that cannot be written.
pub open spec fn spec_partial_line(f: HeaderFormatter, p: FieldPairView) -> Seq<u8> {
    if spec_name_ok(f, p) {
        spec_name_bytes(f, p.name) + spec_separator(f, p)
    } else {
        seq![]
    }
}

/// Whether every byte is a token character.
pub fn all_token(bytes: &[u8]) -> (r: bool)
    ensures
        r == forall|i: int| 0 <= i < bytes@.len() ==> is_token_byte(#[trigger] bytes@[i]),
{
    let mut i: usize = 0;
    while i < bytes.len()
        invariant
            0 <= i <= bytes@.len(),
            forall|j: int| 0 <= j < i ==> is_token_byte(#[trigger] bytes@[j]),
        decreases bytes@.len() - i,
    {
        if !is_token(bytes[i]) {
            return false;
        }
        i = i + 1;
    }
    true
}

fn no_newline(bytes: &[u8]) -> (r: bool)
    ensures
        r == forall|i: int|
            0 <= i < bytes@.len() ==> #[trigger] bytes@[i] != 0x0D && bytes@[i] != 0x0A,
{
    let mut i: usize = 0;
    while i < bytes.len()
        invariant
            0 <= i <= bytes@.len(),
            forall|j: int| 0 <= j < i ==> #[trigger] bytes@[j] != 0x0D && bytes@[j] != 0x0A,
        decreases bytes@.len() - i,
    {
        if bytes[i] == 0x0D || bytes[i] == 0x0A {
            return false;
        }
        i = i + 1;
    }
    true
}

impl HeaderFormatter {
    /// Creates a new `HeaderFormatter` with the default configuration.
    pub fn new() -> (r: Self)
        ensures
            !r.lossless_scheme && !r.use_raw && !r.disable_validation,
    {
        Self { lossless_scheme: false, use_raw: false, disable_validation: false }
    }

    /// Sets whether text is encoded using the lossless scheme.
    ///
    /// This should only be true if header fields are constructed from sources
    /// that decode with the lossless scheme. Default is false.
    pub fn lossless_scheme(&mut self, value: bool) -> (r: &mut Self)
        ensures
            *r == (HeaderFormatter { lossless_scheme: value, ..*old(self) }),
            *final(self) == *final(r),
    {
        self.lossless_scheme = value;
        self
    }

    /// Sets whether raw values are used when available.
    ///
    /// When true, if a name or value field's `raw` member is not None, it will
    /// be used instead of the `text` member. Default is false.
    pub fn use_raw(&mut self, value: bool) -> (r: &mut Self)
        ensures
            *r == (HeaderFormatter { use_raw: value, ..*old(self) }),
            *final(self) == *final(r),
    {
        self.use_raw = value;
        self
    }

    /// Sets whether invalid character sequences are let through.
    ///
    /// Enabling this feature will introduce security vulnerabilities.
    /// Default is false.
    pub fn disable_validation(&mut self, value: bool) -> (r: &mut Self)
        ensures
            *r == (HeaderFormatter { disable_validation: value, ..*old(self) }),
            *final(self) == *final(r),
    {
        self.disable_validation = value;
        self
    }

    fn name_bytes(&self, name: &FieldName) -> (r: Vec<u8>)
        ensures
            r@ == spec_name_bytes(*self, name@),
    {
        match &name.raw {
            Some(raw) if self.use_raw => {
                let mut out: Vec<u8> = Vec::new();
                out.extend_from_slice(raw.as_slice());
                assert(out@ =~= raw@);
                out
            },
            _ => {
                if self.lossless_scheme {
                    name.text.to_utf8_lossless()
                } else {
                    let mut out: Vec<u8> = Vec::new();
                    out.extend_from_slice(name.text.as_str().as_bytes());
                    assert(out@ =~= encode_utf8(name.text@));
                    out
                }
            },
        }
    }

    fn value_bytes(&self, value: &FieldValue) -> (r: Vec<u8>)
        ensures
            r@ == spec_value_bytes(*self, value@),
    {
        match &value.raw {
            Some(raw) if self.use_raw => {
                let mut out: Vec<u8> = Vec::new();
                out.extend_from_slice(raw.as_slice());
                assert(out@ =~= raw@);
                out
            },
            _ => {
                if self.lossless_scheme {
                    value.text.to_utf8_lossless()
                } else {
                    let mut out: Vec<u8> = Vec::new();
                    out.extend_from_slice(value.text.as_str().as_bytes());
                    assert(out@ =~= encode_utf8(value.text@));
                    out
                }
            },
        }
    }

    /// Format the name-value fields to HTTP-style format, appending to `dest`.
    ///
    /// Returns the number of bytes written. On an invalid field, the fields
    /// before it (and, for an invalid value, its name and separator) have
    /// been written and the error tells the field.
    pub fn format_header(&self, header: &HeaderMap, dest: &mut Vec<u8>) -> (r: Result<
        usize,
        FormatError,
    >)
        ensures
            r matches Ok(n) ==> {
                &&& forall|i: int| 0 <= i < header@.len() ==> spec_pair_ok(*self, #[trigger] header@[i])
                &&& final(dest)@ == old(dest)@ + spec_formatted(*self, header@)
                &&& n == spec_formatted(*self, header@).len()
            },
            r matches Err(FormatError::Data(e)) ==> 0 <= e@.line < header@.len(),
            r matches Err(FormatError::Data(e)) ==> forall|j: int|
                0 <= j < e@.line ==> spec_pair_ok(*self, #[trigger] header@[j]),
            r matches Err(FormatError::Data(e)) ==> !spec_pair_ok(*self, header@[e@.line as int]),
            r matches Err(FormatError::Data(e)) ==> final(dest)@ == old(dest)@ + spec_formatted(
                *self,
                header@.take(e@.line as int),
            ) + spec_partial_line(*self, header@[e@.line as int]),
            r matches Err(FormatError::Data(e)) ==> if !spec_name_ok(*self, header@[e@.line as int]) {
                e@.name == Some(header@[e@.line as int].name) && e@.value is None
            } else {
                e@.name is None && e@.value == Some(header@[e@.line as int].value)
            },
    {
        let pairs = header.as_slice();
        let ghost hv = header@;
        let ghost start = dest@;
        let mut num_bytes: usize = 0;
        let mut line: usize = 0;
        assert(hv.take(0) =~= Seq::<FieldPairView>::empty());
        while line < pairs.len()
            invariant
                0 <= line <= hv.len(),
                pairs@.map_values(|p: FieldPair| p@) == hv,
                hv == header@,
                start == old(dest)@,
                forall|j: int| 0 <= j < line ==> spec_pair_ok(*self, #[trigger] hv[j]),
                dest@ == start + spec_formatted(*self, hv.take(line as int)),
                num_bytes == spec_formatted(*self, hv.take(line as int)).len(),
            decreases hv.len() - line,
        {
            let pair = &pairs[line];
            assert(pair@ == hv[line as int]);
            let name_bytes = self.name_bytes(&pair.name);
            if !self.disable_validation && !all_token(name_bytes.as_slice()) {
                assert(!spec_name_ok(*self, hv[line as int]));
                assert(dest@ =~= start + spec_formatted(*self, hv.take(line as int))
                    + spec_partial_line(*self, hv[line as int]));
                let ghost li = (line as u64) as int;
                assert(li == line as int);
                return Err(
                    FormatError::Data(
                        FormatDataError {
                            line: line as u64,
                            name: Some(pair.name.duplicate()),
                            value: None,
                        },
                    ),
                );
            }
            dest.extend_from_slice(name_bytes.as_slice());
            let sep_len: usize;
            if self.use_raw && pair.value.raw.is_some() {
                dest.push(0x3A);
                sep_len = 1;
            } else {
                dest.push(0x3A);
                dest.push(0x20);
                sep_len = 2;
            }
            let value_bytes = self.value_bytes(&pair.value);
            if !self.disable_validation && !no_newline(value_bytes.as_slice()) {
                assert(!spec_value_ok(*self, hv[line as int]));
                assert(dest@ =~= start + spec_formatted(*self, hv.take(line as int))
                    + spec_partial_line(*self, hv[line as int]));
                let ghost li = (line as u64) as int;
                assert(li == line as int);
                return Err(
                    FormatError::Data(
                        FormatDataError {
                            line: line as u64,
                            name: None,
                            value: Some(pair.value.duplicate()),
                        },
                    ),
                );
            }
            dest.extend_from_slice(value_bytes.as_slice());
            dest.push(0x0D);
            dest.push(0x0A);
            proof {
                assert(hv.take(line + 1).drop_last() =~= hv.take(line as int));
                assert(dest@ =~= start + spec_formatted(*self, hv.take(line + 1)));
            }
            assert(dest@.len() == start.len() + num_bytes + name_bytes@.len() + sep_len
                + value_bytes@.len() + 2);
            let cur_len = dest.len();
            assert(dest@.len() <= usize::MAX);
            num_bytes = num_bytes + name_bytes.len() + sep_len + value_bytes.len() + 2;
            line = line + 1;
        }
        assert(hv.take(line as int) =~= hv);
        Ok(num_bytes)
    }
}

} // verus!
