//! Identifiers and states of work units for retrieving resources.
use vstd::prelude::*;

use crate::num::{ascii_chars, dec_digits, push_ascii, push_decimal};
use crate::stringutil::string_push;
use crate::weburl::UrlParts;

verus! {

/// ID of the quest.
#[derive(Debug, Clone, Copy, PartialEq, Eq, Structural)]
pub struct QuestId(i64);

/// The decimal text of a signed number.
pub open spec fn signed_text(v: int) -> Seq<char> {
    if v < 0 {
        seq!['-'] + ascii_chars(dec_digits((-v) as nat))
    } else {
        ascii_chars(dec_digits(v as nat))
    }
}

impl View for QuestId {
    type V = i64;

    closed spec fn view(&self) -> i64 {
        self.0
    }
}

impl QuestId {
    /// Creates an ID with the given number.
    pub fn new(id: i64) -> (r: Self)
        ensures
            r@ == id,
    {
        QuestId(id)
    }

    /// Returns the number of the ID.
    pub fn value(&self) -> (r: i64)
        ensures
            r == self@,
    {
        self.0
    }

    /// Returns the ID as decimal text.
    pub fn to_string(&self) -> (r: String)
        ensures
            r@ == signed_text(self@ as int),
    {
        let v = self.0;
        let mut out = String::new();
        let magnitude: u64 = if v < 0 {
            string_push(&mut out, '-');
            ((-(v + 1)) as u64) + 1
        } else {
            v as u64
        };
        let mut digits: Vec<u8> = Vec::new();
        push_decimal(&mut digits, magnitude);
        push_ascii(&mut out, digits.as_slice());
        out
    }
}

impl Default for QuestId {
    fn default() -> (r: Self)
        ensures
            r@ == 0,
    {
        QuestId(0)
    }
}

/// Processing status of the quest.
#[derive(Debug, Clone, Copy, PartialEq, Eq, Structural)]
pub enum QuestStatus {
    /// New quest ready to be processed.
    New,
    /// Quest was completed with success.
    Done,
    /// Quest was completed but the resource was not found.
    NotFound,
    /// Quest could not be completed because a network or server error.
    Failed,
    /// Quest could not be completed because of a program error or crash.
    Error,
    /// Quest was previously added but was marked to be ignored.
    Skipped,
}

impl Default for QuestStatus {
    fn default() -> (r: Self)
        ensures
            r == QuestStatus::New,
    {
        QuestStatus::New
    }
}

/// Represents a work unit or task for retrieving a resource.
#[derive(Debug)]
pub struct Quest {
    /// ID of the quest.
    pub id: QuestId,
    /// Processing status.
    pub status: QuestStatus,
    /// Fetch priority.
    ///
    /// More positive numbers are higher priority than numbers towards negative.
    pub priority: i64,
    /// URL of the resource to be fetched.
    pub url: UrlParts,
    /// The previous quest that invoked this quest.
    pub parent: Option<Box<Quest>>,
    /// The ancestry count of the quest.
    ///
    /// A quest with no parent (root) is depth 0, the child is 1,
    /// the grandchild is 2, and so on.
    pub depth: u64,
    /// Protocol-specific parameters.
    pub protocol_parameters: ProtocolParameters,
}

/// Protocol-specific parameters.
#[derive(Debug)]
pub enum ProtocolParameters {
    /// No protocol-specific parameters.
    Unspecified,
    /// HTTP parameters.
    Http(HttpQuest),
}

impl Default for ProtocolParameters {
    fn default() -> (r: Self)
        ensures
            r is Unspecified,
    {
        ProtocolParameters::Unspecified
    }
}

/// HTTP request contextual parameters.
#[derive(Debug)]
pub struct HttpQuest {
    /// Whether to this is an object embedded in a web page such as an image or stylesheet.
    pub is_object: Option<bool>,
    /// Expected MIME-type.
    pub media_type: Option<String>,
    /// URL to be sent as the referrer URL.
    pub referrer_url: Option<UrlParts>,
}

impl Default for HttpQuest {
    fn default() -> (r: Self)
        ensures
            r.is_object is None,
            r.media_type is None,
            r.referrer_url is None,
    {
        HttpQuest { is_object: None, media_type: None, referrer_url: None }
    }
}

} // verus!
