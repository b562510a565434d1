//! A deliberately small error type: a message and nothing else.
use vstd::prelude::*;

use crate::text::{chars_of, string_of, concat};

verus! {

#[derive(Debug, Clone)]
pub struct Error(pub String);

pub type Result<T> = std::result::Result<T, Error>;

/// Sentinel message for "this needs root and we have no way in yet", so the
/// interface can answer with a prompt instead of an error.
pub const NEEDS_PASSWORD: &'static str = "root password required";

impl Error {
    pub fn new(msg: &str) -> (e: Error)
        ensures
            e.0@ == msg@,
    {
        Error(string_of(chars_of(msg).as_slice()))
    }

    pub fn needs_password() -> (e: Error)
        ensures
            e.0@ == NEEDS_PASSWORD@,
    {
        Error::new(NEEDS_PASSWORD)
    }

    pub fn is_needs_password(&self) -> (r: bool)
        ensures
            r == (self.0@ == NEEDS_PASSWORD@),
    {
        crate::text::str_eq(self.0.as_str(), NEEDS_PASSWORD)
    }
}

/// What `format!("{:?}", s)` prints for a string: the string quoted, with
/// the escapes `Debug` applies.
pub uninterp spec fn debug_quoted(s: Seq<char>) -> Seq<char>;

/// `<str as Debug>::fmt`, through `format!`. Claimed: the text depends on
/// `s` alone. What the escapes are is left to the name.
#[verifier::external_body]
fn debug_str(s: &str) -> (r: String)
    ensures
        r@ == debug_quoted(s@),
{
    format!("{s:?}")
}

/// `String::clear`. Claimed: the string afterwards holds no characters.
#[verifier::external_body]
fn clear_string(s: &mut String)
    ensures
        final(s)@ == Seq::<char>::empty(),
{
    s.clear();
}


/// Overwrite a string's bytes before dropping it. Clearing keeps the buffer,
/// so pushing as many NUL bytes as it held writes over the old contents in
/// place; the second clear leaves it empty. Not a guarantee against a
/// determined attacker with memory access, but it keeps a password from
/// sitting in the process image any longer than it has to.
pub fn scrub(secret: &mut String)
    ensures
        final(secret)@ == Seq::<char>::empty(),
{
    let n = secret.as_str().len();
    clear_string(secret);
    let mut i: usize = 0;
    while i < n
        invariant
            i <= n,
        decreases n - i,
    {
        crate::text::push_char(secret, '\0');
        i += 1;
    }
    clear_string(secret);
}

/// Bytes one character takes in UTF-8.
pub open spec fn utf8_width(c: char) -> nat {
    let n = c as u32;
    if n < 0x80 {
        1
    } else if n < 0x800 {
        2
    } else if n < 0x10000 {
        3
    } else {
        4
    }
}

/// Length in bytes of the UTF-8 encoding, which is what `str::len` counts.
pub open spec fn utf8_len(s: Seq<char>) -> nat
    decreases s.len(),
{
    if s.len() == 0 {
        0
    } else {
        utf8_len(s.drop_last()) + utf8_width(s.last())
    }
}

/// Whether the UTF-8 encoding of `s` is longer than `limit` bytes.
fn utf8_longer_than(s: &[char], limit: usize) -> (r: bool)
    ensures
        r == (utf8_len(s@) > limit),
{
    let mut total: usize = 0;
    let mut i: usize = 0;
    while i < s.len()
        invariant
            i <= s@.len(),
            total == utf8_len(s@.take(i as int)),
            total <= limit,
        decreases s@.len() - i,
    {
        let n = s[i] as u32;
        let w: usize = if n < 0x80 {
            1
        } else if n < 0x800 {
            2
        } else if n < 0x10000 {
            3
        } else {
            4
        };
        assert(s@.take(i + 1).drop_last() =~= s@.take(i as int));
        if w > limit - total {
            proof {
                lemma_utf8_len_monotone(s@, i + 1);
            }
            return true;
        }
        total += w;
        i += 1;
    }
    assert(s@.take(i as int) =~= s@);
    false
}

proof fn lemma_utf8_len_monotone(s: Seq<char>, k: int)
    requires
        0 <= k <= s.len(),
    ensures
        utf8_len(s.take(k)) <= utf8_len(s),
    decreases s.len() - k,
{
    if k < s.len() {
        lemma_utf8_len_monotone(s, k + 1);
        assert(s.take(k + 1).drop_last() =~= s.take(k));
    } else {
        assert(s.take(k) =~= s);
    }
}

/// The characters a value may hold before it is handed to a shell.
pub open spec fn shell_safe_char(c: char) -> bool {
    let n = c as u32;
    ||| (48 <= n && n <= 57)
    ||| (65 <= n && n <= 90)
    ||| (97 <= n && n <= 122)
    ||| c == '.'
    ||| c == '-'
    ||| c == '_'
    ||| c == ' '
}

pub open spec fn refusal_message(value: Seq<char>) -> Seq<char> {
    refusal_of(debug_quoted(value))
}

pub open spec fn refusal_of(quoted: Seq<char>) -> Seq<char> {
    "refusing to pass "@ + quoted + " to a shell"@
}

/// The error for a value that would need quoting, given the value as
/// `Debug` quotes it.
pub fn shell_refusal(quoted: &str) -> (e: Error)
    ensures
        e.0@ == refusal_of(quoted@),
{
    let head = chars_of("refusing to pass ");
    let tail = chars_of(" to a shell");
    let msg = concat(concat(head.as_slice(), chars_of(quoted).as_slice()).as_slice(), tail.as_slice());
    Error(string_of(msg.as_slice()))
}

/// Reject anything that would need quoting before it reaches a shell.
pub fn ensure_shell_safe(value: &str) -> (r: Result<()>)
    ensures
        value@.len() == 0 ==> (r matches Err(e) && e.0@ == "value is empty"@),
        value@.len() > 0 && utf8_len(value@) > 64 ==> (r matches Err(e) && e.0@
            == "value is implausibly long"@),
        value@.len() > 0 && utf8_len(value@) <= 64 ==> (r is Ok <==> forall|i: int|
            0 <= i < value@.len() ==> shell_safe_char(#[trigger] value@[i])),
        value@.len() > 0 && utf8_len(value@) <= 64 ==> (r matches Err(e) ==> e.0@
            == refusal_message(value@)),
{
    let chars = chars_of(value);
    if chars.len() == 0 {
        return Err(Error::new("value is empty"));
    }
    if utf8_longer_than(chars.as_slice(), 64) {
        return Err(Error::new("value is implausibly long"));
    }
    let mut i: usize = 0;
    while i < chars.len()
        invariant
            i <= chars@.len(),
            chars@ == value@,
            utf8_len(value@) <= 64,
            forall|k: int| 0 <= k < i ==> shell_safe_char(#[trigger] value@[k]),
        decreases chars@.len() - i,
    {
        let c = chars[i];
        let n = c as u32;
        let ok = (48 <= n && n <= 57) || (65 <= n && n <= 90) || (97 <= n && n <= 122) || c
            == '.' || c == '-' || c == '_' || c == ' ';
        if !ok {
            return Err(shell_refusal(debug_str(value).as_str()));
        }
        i += 1;
    }
    Ok(())
}

} // verus!
