use vstd::prelude::*;
use vstd::string::StringExecFns;
use crate::text::push_char;

verus! {

pub const URL: &'static str = "http://api.fanyi.baidu.com/api/trans/vip/translate";

pub const DEFAULT_FROM_LANG: &'static str = "auto";

pub const DEFAULT_TO_LANG: &'static str = "auto";

pub const MAX_TIMEOUT_COUNT: u32 = 2;

pub const MAX_ERROR_COUNT: u32 = 2;

/// The largest request, in bytes, is one less than this.
pub const MAX_REQUEST_BYTES: usize = 3000;

/// Adds a piece of `this` bytes to the block whose size is `*sum`.
///
/// A piece of `MAX_REQUEST_BYTES` or more fits no block: `Err`, and `sum` is
/// left alone. Otherwise `Ok(false)` where the block stays under the limit
/// (and `sum` is left alone), or `Ok(true)` where the piece must open a new
/// block, whose size `sum` then holds.
pub fn split_blocks(sum: &mut usize, this: usize) -> (r: Result<bool, ()>)
    requires
        *old(sum) < MAX_REQUEST_BYTES,
    ensures
        this >= MAX_REQUEST_BYTES ==> r is Err && *final(sum) == *old(sum),
        this < MAX_REQUEST_BYTES && *old(sum) + this < MAX_REQUEST_BYTES ==> r == Ok::<bool, ()>(
            false,
        ) && *final(sum) == *old(sum),
        this < MAX_REQUEST_BYTES && *old(sum) + this >= MAX_REQUEST_BYTES ==> r == Ok::<bool, ()>(
            true,
        ) && *final(sum) == this,
{
    if this < MAX_REQUEST_BYTES {
        let num = *sum + this;
        Ok(
            if num < MAX_REQUEST_BYTES {
                false
            } else {
                *sum = this;
                true
            },
        )
    } else {
        Err(())
    }
}

/// Relies on `rand::random::<u16>`: any value may come back.
#[verifier::external_body]
fn random_u16() -> (r: u16) {
    rand::random()
}

/// The salt made from a random number: its low fifteen bits above 32768.
pub open spec fn salt_of(x: u16) -> u16 {
    ((x & 32767) + 32768) as u16
}

/// Turns a random number into a salt in `32768..=65535`.
pub fn salt_from_random(x: u16) -> (r: u16)
    ensures
        r == salt_of(x),
        32768 <= r,
{
    let low = x & 32767u16;
    assert(low <= 32767) by (bit_vector)
        requires
            low == x & 32767u16,
    ;
    low + 32768
}

/// A fresh salt in `32768..=65535`.
pub fn get_salt() -> (r: u16)
    ensures
        32768 <= r,
{
    salt_from_random(random_u16())
}

/// The decimal digits of `n`, most significant first, with no leading zero.
pub open spec fn decimal(n: nat) -> Seq<char>
    decreases n,
{
    if n < 10 {
        seq![digit_char(n)]
    } else {
        decimal(n / 10).push(digit_char(n % 10))
    }
}

pub open spec fn digit_char(d: nat) -> char {
    (d + '0' as u32) as char
}

/// Writes `n` in decimal.
pub fn decimal_string(n: u32) -> (r: String)
    ensures
        r@ == decimal(n as nat),
    decreases n,
{
    let d = n % 10;
    let c = char_of_digit(d);
    if n < 10 {
        let mut s = String::new();
        push_char(&mut s, c);
        assert(s@ =~= seq![c]);
        s
    } else {
        let mut s = decimal_string(n / 10);
        push_char(&mut s, c);
        s
    }
}

fn char_of_digit(d: u32) -> (c: char)
    requires
        d < 10,
    ensures
        c == digit_char(d as nat),
{
    if d == 0 {
        '0'
    } else if d == 1 {
        '1'
    } else if d == 2 {
        '2'
    } else if d == 3 {
        '3'
    } else if d == 4 {
        '4'
    } else if d == 5 {
        '5'
    } else if d == 6 {
        '6'
    } else if d == 7 {
        '7'
    } else if d == 8 {
        '8'
    } else {
        '9'
    }
}

/// The lowercase hex MD5 digest of the UTF-8 bytes of a text.
pub uninterp spec fn md5_hex_of(s: Seq<char>) -> Seq<char>;

/// Relies on `md5::compute` over the bytes of `s`, written out by the digest's
/// `LowerHex`: two lowercase hex digits for each of its sixteen bytes.
#[verifier::external_body]
fn md5_hex(s: &str) -> (r: String)
    ensures
        r@ == md5_hex_of(s@),
        r@.len() == 32,
{
    format!("{:x}", md5::compute(s.as_bytes()))
}

/// The text that a request is signed over: app id, query, salt and key, one
/// after the other.
pub open spec fn sign_input(id: Seq<char>, message: Seq<char>, salt: u16, key: Seq<char>) -> Seq<
    char,
> {
    id + message + decimal(salt as nat) + key
}

/// The settings of a translation request.
#[derive(Clone, Copy)]
pub struct Translater<'a> {
    pub id: &'a str,
    pub key: &'a str,
    pub salt: u16,
    pub from_lang: &'a str,
    pub to_lang: &'a str,
}

impl<'a> Translater<'a> {
    /// Settings for `id` and `key`, salt 0, and both languages `"auto"`.
    pub fn new(id: &'a str, key: &'a str) -> (r: Self)
        ensures
            r.id@ == id@,
            r.key@ == key@,
            r.salt == 0,
            r.from_lang@ == DEFAULT_FROM_LANG@,
            r.to_lang@ == DEFAULT_TO_LANG@,
    {
        Translater { id, key, salt: 0, from_lang: DEFAULT_FROM_LANG, to_lang: DEFAULT_TO_LANG }
    }

    pub fn set_from_lang(&mut self, from: &'a str)
        ensures
            *final(self) == (Translater { from_lang: from, ..*old(self) }),
    {
        self.from_lang = from;
    }

    pub fn set_to_lang(&mut self, to: &'a str)
        ensures
            *final(self) == (Translater { to_lang: to, ..*old(self) }),
    {
        self.to_lang = to;
    }

    /// Draws a new salt, in `32768..=65535`; the rest is kept.
    pub fn update_salt(&mut self)
        ensures
            32768 <= final(self).salt,
            *final(self) == (Translater { salt: final(self).salt, ..*old(self) }),
    {
        self.salt = get_salt();
    }

    /// The request's signature: the MD5 digest, in lowercase hex, of app id,
    /// query, salt in decimal and key.
    pub fn get_sign(&self, message: &str) -> (r: String)
        ensures
            r@ == md5_hex_of(sign_input(self.id@, message@, self.salt, self.key@)),
    {
        let mut s = String::from_str(self.id);
        s.append(message);
        let salt = decimal_string(self.salt as u32);
        s.append(salt.as_str());
        s.append(self.key);
        md5_hex(s.as_str())
    }

    pub fn from_lang(&self) -> (r: &str)
        ensures
            r@ == self.from_lang@,
    {
        self.from_lang
    }

    pub fn to_lang(&self) -> (r: &str)
        ensures
            r@ == self.to_lang@,
    {
        self.to_lang
    }
}

/// What the request loop does after a failed request.
#[derive(Debug, Clone, Copy, PartialEq, Eq, Structural)]
pub enum RetryAction {
    /// Send the request again.
    Retry,
    /// Stop: too many timeouts.
    TooManyTimeouts,
    /// Stop: too many other errors.
    TooManyErrors,
}

/// Failures counted so far by the request loop.
#[derive(Debug, Clone, Copy, PartialEq, Eq, Structural)]
pub struct RetryState {
    pub timeout_count: u32,
    pub error_count: u32,
}

impl RetryState {
    pub open spec fn valid(self) -> bool {
        self.timeout_count < MAX_TIMEOUT_COUNT && self.error_count < MAX_ERROR_COUNT
    }

    /// No failure yet.
    pub fn new() -> (r: Self)
        ensures
            r.timeout_count == 0 && r.error_count == 0,
            r.valid(),
    {
        RetryState { timeout_count: 0, error_count: 0 }
    }

    /// Counts one failed request, a timeout or another error, and says whether
    /// to try again: not once either count has reached its limit.
    pub fn on_failure(self, is_timeout: bool) -> (r: (RetryState, RetryAction))
        requires
            self.valid(),
        ensures
            is_timeout ==> r.0 == (RetryState {
                timeout_count: (self.timeout_count + 1) as u32,
                ..self
            }),
            !is_timeout ==> r.0 == (RetryState {
                error_count: (self.error_count + 1) as u32,
                ..self
            }),
            r.1 == (if r.0.timeout_count >= MAX_TIMEOUT_COUNT {
                RetryAction::TooManyTimeouts
            } else if r.0.error_count >= MAX_ERROR_COUNT {
                RetryAction::TooManyErrors
            } else {
                RetryAction::Retry
            }),
            r.1 == RetryAction::Retry <==> r.0.valid(),
    {
        let mut next = self;
        if is_timeout {
            next.timeout_count = self.timeout_count + 1;
        } else {
            next.error_count = self.error_count + 1;
        }
        let action = if next.timeout_count >= MAX_TIMEOUT_COUNT {
            RetryAction::TooManyTimeouts
        } else if next.error_count >= MAX_ERROR_COUNT {
            RetryAction::TooManyErrors
        } else {
            RetryAction::Retry
        };
        (next, action)
    }
}

} // verus!
