use vstd::prelude::*;

verus! {

/// Relies on `str::chars`, collected into a vector: the characters of `s`, in order.
#[verifier::external_body]
pub(crate) fn chars_of(s: &str) -> (r: Vec<char>)
    ensures
        r@ == s@,
{
    s.chars().collect()
}

/// Relies on `String::push`: appends one character.
#[verifier::external_body]
pub(crate) fn push_char(s: &mut String, c: char)
    ensures
        final(s)@ == old(s)@.push(c),
{
    s.push(c)
}

/// Unicode's `White_Space` property.
pub open spec fn white_space(c: char) -> bool {
    let v = c as u32;
    (0x9 <= v <= 0xd) || v == 0x20 || v == 0x85 || v == 0xa0 || v == 0x1680 || (0x2000 <= v
        <= 0x200a) || v == 0x2028 || v == 0x2029 || v == 0x202f || v == 0x205f || v == 0x3000
}

/// Relies on `char::is_whitespace`: true exactly for the `White_Space` characters.
#[verifier::external_body]
fn is_whitespace(c: char) -> (r: bool)
    ensures
        r == white_space(c),
{
    c.is_whitespace()
}

/// How many whitespace characters end at position `k` of `s`, counted back
/// to the last other character.
pub open spec fn space_run(s: Seq<char>, k: int) -> nat
    decreases k + 1,
{
    if k < 0 || k >= s.len() || !white_space(s[k]) {
        0
    } else {
        space_run(s, k - 1) + 1
    }
}

/// The first `n` characters of `s`, less every whitespace character that
/// follows `count` others in a row.
pub open spec fn squeeze(s: Seq<char>, n: int, count: nat) -> Seq<char>
    decreases n,
{
    if n <= 0 {
        Seq::empty()
    } else if space_run(s, n - 1) <= count {
        squeeze(s, n - 1, count).push(s[n - 1])
    } else {
        squeeze(s, n - 1, count)
    }
}

/// Cuts each run of whitespace down to its first `count` characters; with
/// `count` 0 no whitespace is left.
pub fn filter_out_long_empty_str(s: &str, count: usize) -> (r: String)
    ensures
        r@ == squeeze(s@, s@.len() as int, count as nat),
{
    let chars = chars_of(s);
    let len = chars.len();
    let mut res = String::new();
    let mut continue_count: usize = 0;
    let mut k: usize = 0;
    while k < len
        invariant
            chars@ == s@,
            len == s@.len(),
            k <= len,
            continue_count == space_run(s@, k - 1),
            continue_count <= k,
            res@ == squeeze(s@, k as int, count as nat),
        decreases len - k,
    {
        let c = chars[k];
        if is_whitespace(c) {
            continue_count = continue_count + 1;
        } else {
            continue_count = 0;
        }
        if continue_count <= count {
            push_char(&mut res, c);
        }
        k = k + 1;
    }
    res
}

/// Squeezing runs of whitespace.
pub trait FilterOutLongEmpty {
    type Output;

    fn filter_out_long_empty(&self, count: usize) -> Self::Output;
}

impl FilterOutLongEmpty for &str {
    type Output = String;

    fn filter_out_long_empty(&self, count: usize) -> String {
        filter_out_long_empty_str(*self, count)
    }
}

} // verus!
