use vstd::prelude::*;
use vstd::utf8::{decode_utf8, valid_utf8};

use crate::config::{spec_key_name, ApplicationKeyName};
use crate::replies::utf8_string;
use crate::split::{split_once, split_once_at};
use crate::text::{chars_of, push_char};

verus! {

/// The bytes written by standard base64 text with padding, when the text is
/// such an encoding.
pub uninterp spec fn base64_standard_bytes(text: Seq<char>) -> Option<Seq<u8>>;

/// Decodes standard base64 text with padding.
///
/// Calls `base64::engine::general_purpose::STANDARD.decode`; the contract
/// names the bytes it gives, and says it refuses exactly where the name has
/// none.
#[verifier::external_body]
fn decode_standard(text: &str) -> (r: Option<Vec<u8>>)
    ensures
        match r {
            Some(bytes) => base64_standard_bytes(text@) == Some(bytes@),
            None => base64_standard_bytes(text@) is None,
        },
{
    base64::Engine::decode(&base64::engine::general_purpose::STANDARD, text).ok()
}

/// ASCII whitespace: space, tab, line feed, form feed and carriage return.
pub open spec fn ascii_space(c: char) -> bool {
    c == ' ' || c == '\t' || c == '\n' || c == '\x0C' || c == '\r'
}

/// The words of a text between runs of ASCII whitespace, in order; no word
/// is empty.
pub open spec fn ascii_words(text: Seq<char>) -> Seq<Seq<char>>
    decreases text.len(),
{
    if text.len() == 0 {
        Seq::empty()
    } else {
        let before = text.drop_last();
        let c = text.last();
        let words = ascii_words(before);
        if ascii_space(c) {
            words
        } else if before.len() > 0 && !ascii_space(before.last()) {
            words.update(words.len() - 1, words.last().push(c))
        } else {
            words.push(seq![c])
        }
    }
}

/// A text that ends inside a word has at least one word.
proof fn lemma_words_open(text: Seq<char>)
    requires
        text.len() > 0,
        !ascii_space(text.last()),
    ensures
        ascii_words(text).len() > 0,
    decreases text.len(),
{
    let before = text.drop_last();
    if before.len() > 0 && !ascii_space(before.last()) {
        lemma_words_open(before);
    }
}

/// The code of a character with ASCII letters folded to lower case.
pub open spec fn ascii_lower(c: char) -> u32 {
    let n = c as u32;
    if 65 <= n <= 90 {
        (n + 32) as u32
    } else {
        n
    }
}

/// Whether two texts are equal once ASCII letters are folded to lower case.
pub open spec fn same_ignoring_ascii_case(a: Seq<char>, b: Seq<char>) -> bool {
    &&& a.len() == b.len()
    &&& forall|i: int| 0 <= i < a.len() ==> ascii_lower(#[trigger] a[i]) == ascii_lower(b[i])
}

/// The credentials of an `Authorization` header value: exactly two words, the
/// first `Basic` in any case of letters.
pub open spec fn basic_token(header: Seq<char>) -> Option<Seq<char>> {
    let words = ascii_words(header);
    if words.len() == 2 && same_ignoring_ascii_case(words[0], "Basic"@) {
        Some(words[1])
    } else {
        None
    }
}

/// Why Basic credentials were refused.
#[derive(PartialEq, Eq, Structural, Clone, Copy, Debug)]
pub enum BasicAuthError {
    /// The request carries no readable `Authorization` header.
    Missing,
    /// The header does not hold Basic credentials naming a key.
    Invalid,
}

impl BasicAuthError {
    /// The text a refused request is answered with.
    pub fn message(&self) -> (r: &'static str)
        ensures
            r@ == match self {
                BasicAuthError::Missing => "Missing Basic credentials"@,
                BasicAuthError::Invalid => "Invalid Basic credentials"@,
            },
    {
        match self {
            BasicAuthError::Missing => "Missing Basic credentials",
            BasicAuthError::Invalid => "Invalid Basic credentials",
        }
    }
}

/// The key name of Basic credentials: the header holds `Basic` and standard
/// base64 of UTF-8 text `<key name>:<secret>`, the key name being
/// `<application>.<key>`. The secret is not read.
pub open spec fn spec_basic_key_name(header: Option<Seq<char>>) -> Result<
    (Seq<char>, Seq<char>),
    BasicAuthError,
> {
    match header {
        None => Err(BasicAuthError::Missing),
        Some(h) => match basic_token(h) {
            None => Err(BasicAuthError::Invalid),
            Some(token) => match base64_standard_bytes(token) {
                None => Err(BasicAuthError::Invalid),
                Some(bytes) => if !valid_utf8(bytes) {
                    Err(BasicAuthError::Invalid)
                } else {
                    match split_once(decode_utf8(bytes), ':') {
                        None => Err(BasicAuthError::Invalid),
                        Some((name, _secret)) => match spec_key_name(name) {
                            None => Err(BasicAuthError::Invalid),
                            Some(parts) => Ok(parts),
                        },
                    }
                },
            },
        },
    }
}

/// Whether a character is ASCII whitespace.
fn is_ascii_space(c: char) -> (r: bool)
    ensures
        r == ascii_space(c),
{
    c == ' ' || c == '\t' || c == '\n' || c == '\x0C' || c == '\r'
}

/// The words of a text between runs of ASCII whitespace.
pub fn split_ascii_words(text: &str) -> (r: Vec<String>)
    ensures
        r@.map_values(|w: String| w@) == ascii_words(text@),
{
    let chars = chars_of(text);
    let mut words: Vec<String> = Vec::new();
    let mut current = String::new();
    let mut open = false;
    let mut i: usize = 0;
    assert(words@.map_values(|w: String| w@) =~= Seq::<Seq<char>>::empty());
    assert(chars@.take(0) =~= Seq::<char>::empty());
    while i < chars.len()
        invariant
            i <= chars@.len(),
            chars@ == text@,
            open ==> i > 0 && !ascii_space(chars@[i - 1]),
            !open ==> i == 0 || ascii_space(chars@[i - 1]),
            open ==> words@.map_values(|w: String| w@).push(current@) == ascii_words(chars@.take(i as int)),
            !open ==> words@.map_values(|w: String| w@) == ascii_words(chars@.take(i as int)),
        decreases chars@.len() - i,
    {
        let c = chars[i];
        let ghost before = chars@.take(i as int);
        let ghost after = chars@.take(i + 1);
        assert(after.drop_last() =~= before);
        assert(after.last() == c);
        if is_ascii_space(c) {
            if open {
                let ghost listed = words@.map_values(|w: String| w@);
                let ghost word = current@;
                let done = current;
                words.push(done);
                current = String::new();
                open = false;
                assert(words@.map_values(|w: String| w@) =~= listed.push(word));
            }
        } else {
            if open {
                let ghost listed = words@.map_values(|w: String| w@);
                let ghost word = current@;
                proof {
                    assert(before.last() == chars@[i - 1]);
                    assert(ascii_words(before) == listed.push(word));
                }
                push_char(&mut current, c);
                assert(listed.push(word).update(listed.len() as int, word.push(c)) =~= listed.push(current@));
            } else {
                proof {
                    if i > 0 {
                        assert(before.last() == chars@[i - 1]);
                    }
                }
                current = String::new();
                push_char(&mut current, c);
                open = true;
                assert(current@ =~= seq![c]);
            }
        }
        i = i + 1;
    }
    assert(chars@.take(i as int) =~= text@);
    if open {
        let ghost listed = words@.map_values(|w: String| w@);
        let ghost word = current@;
        words.push(current);
        assert(words@.map_values(|w: String| w@) =~= listed.push(word));
    }
    words
}

/// Whether a text equals another once ASCII letters are folded to lower case.
fn eq_ignoring_ascii_case(a: &str, b: &str) -> (r: bool)
    ensures
        r == same_ignoring_ascii_case(a@, b@),
{
    let x = chars_of(a);
    let y = chars_of(b);
    if x.len() != y.len() {
        return false;
    }
    let mut i: usize = 0;
    while i < x.len()
        invariant
            x@ == a@,
            y@ == b@,
            x@.len() == y@.len(),
            i <= x@.len(),
            forall|j: int| 0 <= j < i ==> ascii_lower(#[trigger] x@[j]) == ascii_lower(y@[j]),
        decreases x@.len() - i,
    {
        let p = x[i] as u32;
        let q = y[i] as u32;
        let lp = if 65 <= p && p <= 90 {
            p + 32
        } else {
            p
        };
        let lq = if 65 <= q && q <= 90 {
            q + 32
        } else {
            q
        };
        if lp != lq {
            return false;
        }
        i = i + 1;
    }
    true
}

/// Reads the key name from the value of an `Authorization` header, `None`
/// when the request carries none that reads as text.
pub fn basic_key_name(header: Option<&str>) -> (r: Result<ApplicationKeyName, BasicAuthError>)
    ensures
        match (r, spec_basic_key_name(
            match header {
                Some(h) => Some(h@),
                None => None,
            },
        )) {
            (Ok(name), Ok(parts)) => name@ == parts,
            (Err(e), Err(f)) => e == f,
            _ => false,
        },
{
    let header = match header {
        Some(h) => h,
        None => {
            return Err(BasicAuthError::Missing);
        },
    };
    let words = split_ascii_words(header);
    proof {
        assert(words@.map_values(|w: String| w@).len() == words@.len());
    }
    if words.len() != 2 || !eq_ignoring_ascii_case(words[0].as_str(), "Basic") {
        proof {
            reveal_strlit("Basic");
            if words@.len() == 2 {
                assert(words@.map_values(|w: String| w@)[0] == words@[0]@);
            }
        }
        return Err(BasicAuthError::Invalid);
    }
    proof {
        reveal_strlit("Basic");
        assert(words@.map_values(|w: String| w@)[0] == words@[0]@);
        assert(words@.map_values(|w: String| w@)[1] == words@[1]@);
    }
    let bytes = match decode_standard(words[1].as_str()) {
        Some(bytes) => bytes,
        None => {
            return Err(BasicAuthError::Invalid);
        },
    };
    let decoded = match utf8_string(bytes) {
        Ok(text) => text,
        Err(_) => {
            return Err(BasicAuthError::Invalid);
        },
    };
    let (key_name, _secret) = match split_once_at(decoded.as_str(), ':') {
        Some(parts) => parts,
        None => {
            return Err(BasicAuthError::Invalid);
        },
    };
    match ApplicationKeyName::parse(key_name.as_str()) {
        Some(name) => Ok(name),
        None => Err(BasicAuthError::Invalid),
    }
}

} // verus!
