//! Domain names for probing resolvers.
use vstd::prelude::*;

use crate::stringutil::string_push;
use rand::Rng;

verus! {

/// Returns a number from `low` to `high`, both included, picked at random.
///
/// Calls `rand::Rng::gen_range` on the thread's generator; claims only that
/// the result lies in the range.
#[verifier::external_body]
fn random_in_range(low: usize, high: usize) -> (r: usize)
    requires
        low <= high,
    ensures
        low <= r <= high,
{
    rand::thread_rng().gen_range(low..=high)
}

/// Whether a character is an ASCII letter or digit.
pub open spec fn is_alphanumeric_char(c: char) -> bool {
    ('a' <= c && c <= 'z') || ('A' <= c && c <= 'Z') || ('0' <= c && c <= '9')
}

/// Returns an ASCII letter or digit picked at random.
///
/// Samples `rand::distributions::Alphanumeric` with the thread's generator;
/// claims only that the result is an ASCII letter or digit.
#[verifier::external_body]
fn random_alphanumeric() -> (r: char)
    ensures
        is_alphanumeric_char(r),
{
    char::from(rand::thread_rng().sample(rand::distributions::Alphanumeric))
}

/// The domain name made of the label `chars` under `.net`.
pub fn domain_from(chars: &[char]) -> (r: String)
    ensures
        r@ == chars@ + seq!['.', 'n', 'e', 't'],
{
    let mut name = String::new();
    let mut i: usize = 0;
    while i < chars.len()
        invariant
            0 <= i <= chars@.len(),
            name@ == chars@.take(i as int),
        decreases chars@.len() - i,
    {
        string_push(&mut name, chars[i]);
        i = i + 1;
        assert(name@ =~= chars@.take(i as int));
    }
    assert(chars@.take(i as int) =~= chars@);
    string_push(&mut name, '.');
    string_push(&mut name, 'n');
    string_push(&mut name, 'e');
    string_push(&mut name, 't');
    assert(name@ =~= chars@ + seq!['.', 'n', 'e', 't']);
    name
}

/// Generate a domain name that is unlikely to exist: 20 to 50 random ASCII
/// letters and digits followed by `.net`.
pub fn random_domain() -> (r: String)
    ensures
        exists|label: Seq<char>|
            {
                &&& 20 <= label.len() <= 50
                &&& forall|i: int| 0 <= i < label.len() ==> is_alphanumeric_char(#[trigger] label[i])
                &&& r@ == label + seq!['.', 'n', 'e', 't']
            },
{
    let length = random_in_range(20, 50);
    let mut label: Vec<char> = Vec::new();
    let mut i: usize = 0;
    while i < length
        invariant
            0 <= i <= length <= 50,
            label@.len() == i,
            forall|j: int| 0 <= j < i ==> is_alphanumeric_char(#[trigger] label@[j]),
        decreases length - i,
    {
        let c = random_alphanumeric();
        label.push(c);
        i = i + 1;
    }
    let r = domain_from(label.as_slice());
    assert(20 <= label@.len() <= 50);
    r
}

} // verus!
