//! Short-code alphabet, validity rules, and random code generation.
use rand::Rng;
use vstd::prelude::*;

verus! {

/// Length of every system-generated short code.
pub const GENERATED_CODE_LEN: usize = 6;

/// How many fresh candidates a generated-mode `create` tries before it
/// gives up with `CodeSpaceExhausted`.
pub const MAX_GENERATION_ATTEMPTS: usize = 10;

/// Characters drawn for system-generated codes: `A`-`Z`, `a`-`z`, `0`-`9`.
pub open spec fn alphabet_char(c: char) -> bool {
    (65 <= c as u32 && c as u32 <= 90)  // 'A'..='Z'
     || (97 <= c as u32 && c as u32 <= 122)  // 'a'..='z'
     || (48 <= c as u32 && c as u32 <= 57)  // '0'..='9'

}

/// A character that is safe as part of a URL path segment: the generation
/// alphabet plus the unreserved punctuation `-`, `_`, `.`, `~`.
pub open spec fn path_safe_char(c: char) -> bool {
    alphabet_char(c) || c as u32 == 45 || c as u32 == 95 || c as u32 == 46 || c as u32 == 126
}

/// A short code acceptable from a caller: non-empty and made only of
/// path-safe characters.
pub open spec fn valid_code(s: Seq<char>) -> bool {
    s.len() > 0 && (forall|i: int| 0 <= i < s.len() ==> path_safe_char(s[i]))
}

/// The shape of every system-generated code: exactly six characters,
/// all from the 62-character alphabet.
pub open spec fn generated_code_format(s: Seq<char>) -> bool {
    s.len() == GENERATED_CODE_LEN && (forall|i: int| 0 <= i < s.len() ==> alphabet_char(s[i]))
}

/// The character at a given position of the generation alphabet,
/// in the order `A`-`Z`, then `a`-`z`, then `0`-`9`.
pub open spec fn spec_code_char(i: int) -> char {
    if i < 26 {
        ((65 + i) as u8) as char
    } else if i < 52 {
        ((97 + (i - 26)) as u8) as char
    } else {
        ((48 + (i - 52)) as u8) as char
    }
}

/// Maps an index below 62 to the corresponding alphabet character.
pub fn code_char(i: u8) -> (c: char)
    requires
        i < 62,
    ensures
        c == spec_code_char(i as int),
        alphabet_char(c),
{
    if i < 26 {
        (65 + i) as char
    } else if i < 52 {
        (97 + (i - 26)) as char
    } else {
        (48 + (i - 52)) as char
    }
}

/// Relies on `rand::thread_rng` and `rand::Rng::gen_range`: returns a
/// uniformly random value in `0..bound`; it panics only on an empty range,
/// which the precondition rules out.
#[verifier::external_body]
fn random_below(bound: u8) -> (r: u8)
    requires
        bound > 0,
    ensures
        r < bound,
{
    rand::thread_rng().gen_range(0..bound)
}

/// Relies on `String::push`: appends one character at the end of the string.
#[verifier::external_body]
fn push_char(s: &mut String, c: char)
    ensures
        final (s)@ == old(s)@.push(c),
{
    s.push(c);
}

/// Draws a fresh candidate short code: six characters sampled uniformly
/// and independently from the 62-character alphabet.
pub fn generate_short_code() -> (code: String)
    ensures
        generated_code_format(code@),
{
    let mut code = String::new();
    let mut i: usize = 0;
    while i < GENERATED_CODE_LEN
        invariant
            i <= GENERATED_CODE_LEN,
            code@.len() == i,
            forall|j: int| 0 <= j < i ==> alphabet_char(code@[j]),
        decreases GENERATED_CODE_LEN - i,
    {
        let idx = random_below(62);
        let c = code_char(idx);
        push_char(&mut code, c);
        i = i + 1;
    }
    code
}

/// Checks a caller-supplied code for validity as a URL path segment.
pub fn is_valid_code(code: &String) -> (b: bool)
    ensures
        b == valid_code(code@),
{
    let s = code.as_str();
    let n = s.unicode_len();
    if n == 0 {
        return false;
    }
    let mut i: usize = 0;
    while i < n
        invariant
            i <= n,
            n == s@.len(),
            s@ == code@,
            forall|j: int| 0 <= j < i ==> path_safe_char(s@[j]),
        decreases n - i,
    {
        let c = s.get_char(i);
        let u = c as u32;
        let ok = (65 <= u && u <= 90) || (97 <= u && u <= 122) || (48 <= u && u <= 57) || u == 45
            || u == 95 || u == 46 || u == 126;
        if !ok {
            return false;
        }
        i = i + 1;
    }
    true
}

} // verus!
