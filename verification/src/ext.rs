//! Calls into outside crates that draw random values, and small std helpers.

use rand::Rng;
use vstd::prelude::*;

verus! {

/// The configuration of a `passwords::PasswordGenerator`, as plain values.
#[derive(Clone, Copy, Debug, PartialEq, Eq, Structural)]
pub struct PasswordPolicy {
    pub length: usize,
    pub numbers: bool,
    pub lowercase_letters: bool,
    pub uppercase_letters: bool,
    pub symbols: bool,
    pub spaces: bool,
    pub exclude_similar_characters: bool,
    pub strict: bool,
}

pub open spec fn is_digit(c: char) -> bool {
    '0' <= c <= '9'
}

pub open spec fn is_lower(c: char) -> bool {
    'a' <= c <= 'z'
}

pub open spec fn is_upper(c: char) -> bool {
    'A' <= c <= 'Z'
}

pub open spec fn is_symbol(c: char) -> bool {
    ('!' <= c <= '/') || (':' <= c <= '@') || ('[' <= c <= '`') || ('{' <= c <= '~')
}

/// Characters that the generator leaves out when told to exclude similar ones.
pub open spec fn is_similar(c: char) -> bool {
    c == '0' || c == '1' || c == 'i' || c == 'l' || c == 'o' || c == 'I' || c == 'O' || c == '"'
        || c == '\'' || c == '`' || c == '|'
}

/// `c` may appear in a password made under `p`.
pub open spec fn policy_allows(p: PasswordPolicy, c: char) -> bool {
    &&& (p.exclude_similar_characters ==> !is_similar(c))
    &&& {
        ||| (p.numbers && is_digit(c))
        ||| (p.lowercase_letters && is_lower(c))
        ||| (p.uppercase_letters && is_upper(c))
        ||| (p.symbols && is_symbol(c))
        ||| (p.spaces && c == ' ')
    }
}

/// How many kinds of characters `p` enables.
pub open spec fn policy_kinds(p: PasswordPolicy) -> nat {
    (if p.numbers { 1nat } else { 0nat }) + (if p.lowercase_letters { 1nat } else { 0nat }) + (
    if p.uppercase_letters { 1nat } else { 0nat }) + (if p.symbols { 1nat } else { 0nat }) + (
    if p.spaces { 1nat } else { 0nat })
}

/// The generator refuses `p`.
pub open spec fn policy_refused(p: PasswordPolicy) -> bool {
    ||| p.length == 0
    ||| policy_kinds(p) == 0
    ||| (p.strict && p.length < policy_kinds(p))
}

/// A strict policy's password holds a character of each enabled kind.
pub open spec fn has_each_kind(p: PasswordPolicy, s: Seq<char>) -> bool {
    &&& (p.numbers ==> exists|i: int| 0 <= i < s.len() && is_digit(#[trigger] s[i]))
    &&& (p.lowercase_letters ==> exists|i: int| 0 <= i < s.len() && is_lower(#[trigger] s[i]))
    &&& (p.uppercase_letters ==> exists|i: int| 0 <= i < s.len() && is_upper(#[trigger] s[i]))
    &&& (p.symbols ==> exists|i: int| 0 <= i < s.len() && is_symbol(#[trigger] s[i]))
    &&& (p.spaces ==> exists|i: int| 0 <= i < s.len() && #[trigger] s[i] == ' ')
}

/// `passwords::PasswordGenerator::generate_one` on a generator configured by `p`.
/// The password is random. The call fails exactly when the length is zero, no
/// kind of character is enabled, or a strict policy enables more kinds than the
/// length holds; otherwise the password has `p.length` characters, each allowed
/// by `p`, and under a strict policy one of each enabled kind.
#[verifier::external_body]
pub(crate) fn generate_password(p: &PasswordPolicy) -> (r: Result<String, &'static str>)
    ensures
        r is Err <==> policy_refused(*p),
        r matches Ok(s) ==> {
            &&& s@.len() == p.length
            &&& forall|i: int| 0 <= i < s@.len() ==> policy_allows(*p, #[trigger] s@[i])
            &&& (p.strict ==> has_each_kind(*p, s@))
        },
{
    passwords::PasswordGenerator {
        length: p.length,
        numbers: p.numbers,
        lowercase_letters: p.lowercase_letters,
        uppercase_letters: p.uppercase_letters,
        symbols: p.symbols,
        spaces: p.spaces,
        exclude_similar_characters: p.exclude_similar_characters,
        strict: p.strict,
    }.generate_one()
}

/// The version and variant bits that every random (version 4) UUID carries.
pub open spec fn is_v4_uuid(v: u128) -> bool {
    v & 0xF000_C000_0000_0000_0000u128 == 0x4000_8000_0000_0000_0000u128
}

/// Whether `v` carries the version and variant bits of a random UUID.
pub fn is_v4_uuid_value(v: u128) -> (r: bool)
    ensures
        r == is_v4_uuid(v),
{
    v & 0xF000_C000_0000_0000_0000u128 == 0x4000_8000_0000_0000_0000u128
}

/// `uuid::Uuid::new_v4`, as its 128-bit value. The value is random; the crate
/// sets the version nibble to 4 and the variant bits to `10`.
#[verifier::external_body]
pub(crate) fn new_uuid_v4() -> (r: u128)
    ensures
        is_v4_uuid(r),
{
    uuid::Uuid::new_v4().as_u128()
}

/// `rand::Rng::gen_range(0..bound)` on the thread-local generator: a random
/// number below `bound`.
#[verifier::external_body]
pub(crate) fn random_below(bound: usize) -> (r: usize)
    requires
        bound > 0,
    ensures
        r < bound,
{
    rand::thread_rng().gen_range(0..bound)
}

/// `String::push`.
#[verifier::external_body]
pub(crate) fn string_push(s: &mut String, c: char)
    ensures
        final(s)@ == old(s)@.push(c),
{
    s.push(c)
}

} // verus!
