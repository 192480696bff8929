use vstd::prelude::*;

use base64::Engine;

use crate::ids::{ApplicationId, ChannelKey, ConnectionId, NodeId, NodeInstance};
use crate::text::{
    chars_of, hyphenated_digit, hyphenated_uuid, lemma_text_lt_push, push_char, push_str, text_lt,
    uuid_text,
};

verus! {

/// The URL-safe base64 form, without padding, of the UTF-8 bytes of a text.
pub uninterp spec fn base64_url(text: Seq<char>) -> Seq<char>;

/// The bytes written by URL-safe base64 text without padding, when the text
/// is such an encoding.
pub uninterp spec fn base64_url_bytes(text: Seq<char>) -> Option<Seq<u8>>;

/// Decodes URL-safe base64 text without padding.
///
/// Calls `base64::engine::general_purpose::URL_SAFE_NO_PAD.decode`; the
/// contract names the bytes it gives. On a refusal it gives the error's text,
/// of which nothing is claimed.
#[verifier::external_body]
pub(crate) fn decode_segment(text: &str) -> (r: Result<Vec<u8>, String>)
    ensures
        match r {
            Ok(bytes) => base64_url_bytes(text@) == Some(bytes@),
            Err(_) => base64_url_bytes(text@) is None,
        },
{
    base64::engine::general_purpose::URL_SAFE_NO_PAD.decode(text).map_err(|error| error.to_string())
}

/// A character of the URL-safe base64 alphabet: ASCII letters and digits,
/// `-` and `_`.
pub open spec fn url_safe_char(c: char) -> bool {
    let n = c as int;
    (65 <= n <= 90) || (97 <= n <= 122) || (48 <= n <= 57) || n == 45 || n == 95
}

/// A character that may appear in a key: the URL-safe ones and `.`.
pub open spec fn key_char(c: char) -> bool {
    url_safe_char(c) || c == '.'
}

/// Every character of the text is URL-safe.
pub open spec fn url_safe(text: Seq<char>) -> bool {
    forall|i: int| 0 <= i < text.len() ==> url_safe_char(#[trigger] text[i])
}

/// Encodes one dynamic part of a key: the URL-safe base64 form, without
/// padding, of the text's UTF-8 bytes. Its alphabet holds neither `.` nor `:`.
///
/// Calls `base64::engine::general_purpose::URL_SAFE_NO_PAD.encode`. The
/// contract names the result, claims that it uses only the URL-safe alphabet
/// (letters, digits, `-`, `_`; no padding), and that only the same text has the
/// same encoding, as decoding gives the bytes back.
#[verifier::external_body]
pub(crate) fn segment(value: &str) -> (r: String)
    ensures
        r@ == base64_url(value@),
        url_safe(r@),
        forall|other: Seq<char>| #[trigger] base64_url(other) == r@ ==> other == value@,
        base64_url_bytes(r@) == Some(vstd::utf8::encode_utf8(value@)),
{
    base64::engine::general_purpose::URL_SAFE_NO_PAD.encode(value.as_bytes())
}

/// The identifier of one run of a node: the encoded node identifier and the
/// boot identifier. When the run started plays no part.
pub open spec fn generation_id(node_id: Seq<char>, boot_generation: u128) -> Seq<char> {
    base64_url(node_id) + "."@ + hyphenated_uuid(boot_generation)
}

/// The identifier of a run of a node, as used in keys and as the owner of the
/// node's lease.
pub fn generation(instance: &NodeInstance) -> (r: String)
    ensures
        r@ == generation_id(instance.node_id@, instance.boot_generation),
        encoded(instance.node_id@),
        key_text(r@),
{
    let mut text = segment(instance.node_id.as_str());
    push_char(&mut text, '.');
    push_str(&mut text, uuid_text(instance.boot_generation).as_str());
    proof {
        reveal_strlit(".");
        assert(text@ =~= generation_id(instance.node_id@, instance.boot_generation));
        lemma_generation_key_text(instance.node_id@, instance.boot_generation);
    }
    text
}

/// The decimal digits of `n`, the last `width` of them, zero-padded.
pub open spec fn fixed_digits(n: nat, width: nat) -> Seq<char>
    decreases width,
{
    if width == 0 {
        Seq::empty()
    } else {
        fixed_digits(n / 10, (width - 1) as nat).push(crate::text::digit_char(n % 10))
    }
}

/// Ten to the power `w`.
pub open spec fn ten_to(w: nat) -> nat
    decreases w,
{
    if w == 0 {
        1
    } else {
        10 * ten_to((w - 1) as nat)
    }
}

/// Fixed digits have the given width.
proof fn lemma_fixed_digits_len(n: nat, width: nat)
    ensures
        fixed_digits(n, width).len() == width,
    decreases width,
{
    if width > 0 {
        lemma_fixed_digits_len(n / 10, (width - 1) as nat);
    }
}

/// Below ten to the width, fixed digits are equal exactly for equal numbers
/// and ordered as text exactly as the numbers are.
proof fn lemma_fixed_digits_order(n: nat, m: nat, width: nat)
    requires
        n < ten_to(width),
        m < ten_to(width),
    ensures
        (n == m) == (fixed_digits(n, width) == fixed_digits(m, width)),
        (n < m) == text_lt(fixed_digits(n, width), fixed_digits(m, width)),
    decreases width,
{
    if width == 0 {
        assert(fixed_digits(n, width) =~= fixed_digits(m, width));
        assert(!text_lt(Seq::<char>::empty(), Seq::<char>::empty()));
    } else {
        let w = (width - 1) as nat;
        let t = ten_to(w);
        assert(n / 10 < t && m / 10 < t) by (nonlinear_arith)
            requires
                n < 10 * t,
                m < 10 * t,
        ;
        lemma_fixed_digits_order(n / 10, m / 10, w);
        lemma_fixed_digits_len(n / 10, w);
        lemma_fixed_digits_len(m / 10, w);
        let x = fixed_digits(n / 10, w);
        let y = fixed_digits(m / 10, w);
        let c = crate::text::digit_char(n % 10);
        let d = crate::text::digit_char(m % 10);
        assert(c as int == 48 + n % 10);
        assert(d as int == 48 + m % 10);
        lemma_text_lt_push(x, y, c, d);
        assert((n < m) == (n / 10 < m / 10 || (n / 10 == m / 10 && n % 10 < m % 10))) by (nonlinear_arith);
        assert((n == m) == (n / 10 == m / 10 && n % 10 == m % 10)) by (nonlinear_arith);
        if x.push(c) == y.push(d) {
            assert(x =~= x.push(c).drop_last());
            assert(y =~= y.push(d).drop_last());
            assert(x.push(c).last() == c);
        }
    }
}

/// Message serials sort as text in the order of the numbers: the text of a
/// smaller serial orders first, and equal texts are equal serials.
pub proof fn lemma_serials_sort_as_numbers(a: u64, b: u64)
    ensures
        (a < b) == text_lt(fixed_digits(a as nat, 20), fixed_digits(b as nat, 20)),
        (a == b) == (fixed_digits(a as nat, 20) == fixed_digits(b as nat, 20)),
{
    assert(ten_to(20) == 100000000000000000000) by {
        reveal_with_fuel(ten_to, 21);
    }
    lemma_fixed_digits_order(a as nat, b as nat, 20);
}

/// A message serial as twenty zero-padded decimal digits, so that serials
/// sort as text in the order of numbers.
pub fn operation_serial(value: u64) -> (r: String)
    ensures
        r@ == fixed_digits(value as nat, 20),
{
    let mut digits: Vec<char> = Vec::new();
    let mut rest: u64 = value;
    let mut width: usize = 0;
    let ghost n = value as nat;
    proof {
        vstd::arithmetic::power::lemma_pow0(10);
    }
    while width < 20
        invariant
            width <= 20,
            digits@.len() == width,
            forall|k: int| 0 <= k < width ==> #[trigger] digits@[k] == crate::text::digit_char(
                (n / vstd::arithmetic::power::pow(10, k as nat) as nat) % 10,
            ),
            rest as nat == n / vstd::arithmetic::power::pow(10, width as nat) as nat,
        decreases 20 - width,
    {
        let d = (rest % 10) as u8;
        digits.push((48u8 + d) as char);
        proof {
            vstd::arithmetic::power::lemma_pow_positive(10, width as nat);
            vstd::arithmetic::power::lemma_pow_adds(10, width as nat, 1);
            vstd::arithmetic::power::lemma_pow1(10);
            vstd::arithmetic::div_mod::lemma_div_denominator(
                n as int,
                vstd::arithmetic::power::pow(10, width as nat),
                10,
            );
        }
        rest = rest / 10;
        width = width + 1;
    }
    let mut text = String::new();
    let mut i: usize = 20;
    while i > 0
        invariant
            i <= 20,
            digits@.len() == 20,
            forall|k: int| 0 <= k < 20 ==> #[trigger] digits@[k] == crate::text::digit_char(
                (n / vstd::arithmetic::power::pow(10, k as nat) as nat) % 10,
            ),
            text@ == fixed_digits(n / vstd::arithmetic::power::pow(10, i as nat) as nat, (20 - i) as nat),
        decreases i,
    {
        i = i - 1;
        push_char(&mut text, digits[i]);
        proof {
            vstd::arithmetic::power::lemma_pow_positive(10, i as nat);
            vstd::arithmetic::power::lemma_pow_adds(10, i as nat, 1);
            vstd::arithmetic::power::lemma_pow1(10);
            vstd::arithmetic::div_mod::lemma_div_denominator(
                n as int,
                vstd::arithmetic::power::pow(10, i as nat),
                10,
            );
            let m = n / vstd::arithmetic::power::pow(10, i as nat) as nat;
            assert(fixed_digits(m, (20 - i) as nat) == fixed_digits(m / 10, (20 - i - 1) as nat).push(
                crate::text::digit_char(m % 10),
            ));
        }
    }
    proof {
        vstd::arithmetic::power::lemma_pow0(10);
        assert(n / 1 == n);
    }
    text
}


/// A part of a namespace: non-empty, of ASCII letters, digits, `-` and `_`.
pub open spec fn namespace_part(text: Seq<char>) -> bool {
    text.len() > 0 && url_safe(text)
}

/// Every character of the text may appear in a key.
pub open spec fn key_text(text: Seq<char>) -> bool {
    forall|i: int| 0 <= i < text.len() ==> key_char(#[trigger] text[i])
}

/// Joining key texts with a dot gives a key text.
pub proof fn lemma_key_text_join(a: Seq<char>, b: Seq<char>)
    requires
        key_text(a),
        key_text(b),
    ensures
        key_text(a + "."@ + b),
{
    reveal_strlit(".");
    let t = a + "."@ + b;
    assert forall|i: int| 0 <= i < t.len() implies key_char(#[trigger] t[i]) by {
        if i < a.len() {
            assert(t[i] == a[i]);
        } else if i == a.len() {
            assert(t[i] == '.');
        } else {
            assert(t[i] == b[i - a.len() - 1]);
        }
    }
}


/// Two keys of one namespace are equal only with equal rests.
pub proof fn lemma_key_rest(namespace: Seq<char>, a: Seq<char>, b: Seq<char>)
    requires
        spec_key(namespace, a) == spec_key(namespace, b),
    ensures
        a == b,
{
    reveal_strlit(".");
    let n = namespace.len() + 1;
    assert(a =~= spec_key(namespace, a).skip(n as int));
    assert(b =~= spec_key(namespace, b).skip(n as int));
}

/// A URL-safe part ends where the first `.` after it starts.
pub proof fn lemma_split_segment(
    prefix: Seq<char>,
    s1: Seq<char>,
    t1: Seq<char>,
    s2: Seq<char>,
    t2: Seq<char>,
)
    requires
        url_safe(s1),
        url_safe(s2),
        t1.len() > 0,
        t2.len() > 0,
        t1[0] == '.',
        t2[0] == '.',
        prefix + s1 + t1 == prefix + s2 + t2,
    ensures
        s1 == s2,
        t1 == t2,
{
    let l = prefix + s1 + t1;
    let r = prefix + s2 + t2;
    let p = prefix.len() as int;
    if s1.len() < s2.len() {
        assert(l[p + s1.len()] == t1[0]);
        assert(r[p + s1.len()] == s2[s1.len() as int]);
        assert(url_safe_char(s2[s1.len() as int]));
    } else if s2.len() < s1.len() {
        assert(r[p + s2.len()] == t2[0]);
        assert(l[p + s2.len()] == s1[s2.len() as int]);
        assert(url_safe_char(s1[s2.len() as int]));
    } else {
        assert(s1 =~= l.subrange(p, p + s1.len()));
        assert(s2 =~= r.subrange(p, p + s2.len()));
        assert(t1 =~= l.skip(p + s1.len()));
        assert(t2 =~= r.skip(p + s2.len()));
    }
}

/// A text that is a namespace of some application and environment.
pub open spec fn is_namespace(namespace: Seq<char>) -> bool {
    exists|app: Seq<char>, environment: Seq<char>|
        namespace_part(app) && namespace_part(environment) && namespace == spec_namespace(
            app,
            environment,
        )
}

/// A namespace is made of key characters.
pub proof fn lemma_namespace_key_text(namespace: Seq<char>)
    requires
        is_namespace(namespace),
    ensures
        key_text(namespace),
{
    let (app, environment) = choose|app: Seq<char>, environment: Seq<char>|
        namespace_part(app) && namespace_part(environment) && namespace == spec_namespace(
            app,
            environment,
        );
    reveal_strlit(".presence.v1");
    reveal_strlit("presence.v1");
    reveal_strlit(".");
    assert(".presence.v1"@ =~= "."@ + "presence.v1"@);
    let tail = "presence.v1"@;
    assert(key_text(tail));
    lemma_key_text_join(app, environment);
    lemma_key_text_join(app + "."@ + environment, tail);
    assert(namespace =~= app + "."@ + environment + "."@ + tail);
}

/// The namespace of the Presence keys of one application and environment.
pub open spec fn spec_namespace(app: Seq<char>, environment: Seq<char>) -> Seq<char> {
    app + "."@ + environment + ".presence.v1"@
}

/// Why a namespace was refused.
#[derive(PartialEq, Eq, Structural, Clone, Copy, Debug)]
pub enum AppNamespaceError {
    /// The application name is empty or holds a character other than ASCII
    /// letters, digits, `-` and `_`.
    InvalidApp,
    /// The environment name is empty or holds such a character.
    InvalidEnvironment,
}

/// Whether a text is a valid namespace part.
fn is_namespace_part(text: &str) -> (r: bool)
    ensures
        r == namespace_part(text@),
{
    let chars = chars_of(text);
    if chars.len() == 0 {
        return false;
    }
    let mut i: usize = 0;
    while i < chars.len()
        invariant
            chars@ == text@,
            i <= chars@.len(),
            forall|k: int| 0 <= k < i ==> url_safe_char(#[trigger] chars@[k]),
        decreases chars@.len() - i,
    {
        let c = chars[i];
        let ok = ('A' <= c && c <= 'Z') || ('a' <= c && c <= 'z') || ('0' <= c && c <= '9') || c
            == '-' || c == '_';
        if !ok {
            return false;
        }
        i = i + 1;
    }
    true
}

/// A key under `namespace`: the namespace, a dot and the rest.
pub open spec fn spec_key(namespace: Seq<char>, rest: Seq<char>) -> Seq<char> {
    namespace + "."@ + rest
}

/// The text's encoding is URL-safe, and no other text has the same encoding.
pub open spec fn encoded(text: Seq<char>) -> bool {
    &&& url_safe(base64_url(text))
    &&& forall|other: Seq<char>| #[trigger] base64_url(other) == base64_url(text) ==> other == text
}

/// A key rest with two encoded identifiers: `first`, the first encoded, then
/// `second`, the second encoded, a dot and the suffix.
pub open spec fn two_part(
    first: Seq<char>,
    x: Seq<char>,
    second: Seq<char>,
    y: Seq<char>,
    suffix: Seq<char>,
) -> Seq<char> {
    first + base64_url(x) + second + base64_url(y) + "."@ + suffix
}

/// The key of a channel's record `suffix`.
pub open spec fn spec_channel_key(namespace: Seq<char>, channel: (Seq<char>, Seq<char>), suffix: Seq<char>) -> Seq<char> {
    spec_key(namespace, two_part("app."@, channel.0, ".channel."@, channel.1, suffix))
}

/// The key of a connection's record `suffix`.
pub open spec fn spec_connection_key(
    namespace: Seq<char>,
    app: Seq<char>,
    connection: Seq<char>,
    suffix: Seq<char>,
) -> Seq<char> {
    spec_key(namespace, two_part("app."@, app, ".connection."@, connection, suffix))
}

/// Two key rests with the same literal parts and encoded identifiers are
/// equal only with the same identifiers.
pub proof fn lemma_two_part_injective(
    first: Seq<char>,
    second: Seq<char>,
    x1: Seq<char>,
    y1: Seq<char>,
    x2: Seq<char>,
    y2: Seq<char>,
    suffix: Seq<char>,
)
    requires
        encoded(x1),
        encoded(y1),
        encoded(x2),
        encoded(y2),
        second.len() > 0,
        second[0] == '.',
        two_part(first, x1, second, y1, suffix) == two_part(first, x2, second, y2, suffix),
    ensures
        x1 == x2,
        y1 == y2,
{
    reveal_strlit(".");
    let t1 = second + base64_url(y1) + "."@ + suffix;
    let t2 = second + base64_url(y2) + "."@ + suffix;
    assert(two_part(first, x1, second, y1, suffix) =~= first + base64_url(x1) + t1);
    assert(two_part(first, x2, second, y2, suffix) =~= first + base64_url(x2) + t2);
    assert(t1[0] == '.');
    assert(t2[0] == '.');
    lemma_split_segment(first, base64_url(x1), t1, base64_url(x2), t2);
    let u1 = "."@ + suffix;
    let u2 = "."@ + suffix;
    assert(t1 =~= second + base64_url(y1) + u1);
    assert(t2 =~= second + base64_url(y2) + u2);
    lemma_split_segment(second, base64_url(y1), u1, base64_url(y2), u2);
}

/// A key rest with two encoded identifiers is made of key characters.
pub proof fn lemma_two_part_key_text(
    first: Seq<char>,
    x: Seq<char>,
    second: Seq<char>,
    y: Seq<char>,
    suffix: Seq<char>,
)
    requires
        key_text(first),
        key_text(second),
        key_text(suffix),
        encoded(x),
        encoded(y),
    ensures
        key_text(two_part(first, x, second, y, suffix)),
{
    reveal_strlit(".");
    let t = two_part(first, x, second, y, suffix);
    let a = first;
    let b = base64_url(x);
    let c = second;
    let d = base64_url(y);
    let e = "."@ + suffix;
    assert(key_text(e)) by {
        assert forall|i: int| 0 <= i < e.len() implies key_char(#[trigger] e[i]) by {
            if i > 0 {
                assert(e[i] == suffix[i - 1]);
            }
        }
    }
    assert(t =~= a + b + c + d + e);
    assert forall|i: int| 0 <= i < t.len() implies key_char(#[trigger] t[i]) by {
        let n1 = a.len() as int;
        let n2 = n1 + b.len();
        let n3 = n2 + c.len();
        let n4 = n3 + d.len();
        if i < n1 {
            assert(t[i] == a[i]);
        } else if i < n2 {
            assert(t[i] == b[i - n1]);
        } else if i < n3 {
            assert(t[i] == c[i - n2]);
        } else if i < n4 {
            assert(t[i] == d[i - n3]);
        } else {
            assert(t[i] == e[i - n4]);
        }
    }
}

/// The key of a node run's record `suffix`.
pub open spec fn spec_generation_key(
    namespace: Seq<char>,
    node_id: Seq<char>,
    boot_generation: u128,
    suffix: Seq<char>,
) -> Seq<char> {
    spec_key(namespace, "generation."@ + generation_id(node_id, boot_generation) + "."@ + suffix)
}

/// Builds a key rest from its literal parts and two encoded identifiers.
fn two_part_rest(first: &str, x: &str, second: &str, y: &str, suffix: &str) -> (r: String)
    ensures
        r@ == first@ + x@ + second@ + y@ + "."@ + suffix@,
{
    let mut rest = first.to_owned();
    push_str(&mut rest, x);
    push_str(&mut rest, second);
    push_str(&mut rest, y);
    push_char(&mut rest, '.');
    push_str(&mut rest, suffix);
    proof {
        reveal_strlit(".");
        assert(rest@ =~= first@ + x@ + second@ + y@ + "."@ + suffix@);
    }
    rest
}

/// The literal parts of channel and connection keys are key texts.
proof fn lemma_literal_parts()
    ensures
        key_text("app."@),
        key_text(".channel."@),
        key_text(".connection."@),
        ".channel."@.len() > 0 && ".channel."@[0] == '.',
        ".connection."@.len() > 0 && ".connection."@[0] == '.',
{
    reveal_strlit("app.");
    reveal_strlit(".channel.");
    reveal_strlit(".connection.");
}

/// The Redis keys of Presence v1 in the namespace of one application and
/// environment.
///
/// Dynamic identifiers are encoded independently. The methods return whole
/// keys; they read no environment and do not talk to Redis. All lease keys lie
/// under `.lease.`.
#[derive(Debug)]
pub struct RedisKeys {
    namespace: String,
}

impl RedisKeys {
    #[verifier::type_invariant]
    spec fn namespace_inv(&self) -> bool {
        is_namespace(self.namespace@)
    }
}

impl View for RedisKeys {
    type V = Seq<char>;

    closed spec fn view(&self) -> Seq<char> {
        self.namespace@
    }
}

impl Clone for RedisKeys {
    fn clone(&self) -> (r: Self)
        ensures
            r@ == self@,
    {
        proof {
            use_type_invariant(self);
        }
        RedisKeys { namespace: self.namespace.clone() }
    }
}

impl RedisKeys {
    /// The keys of an application and environment; both names must be
    /// non-empty and hold only ASCII letters, digits, `-` and `_`.
    pub fn new(app: &str, environment: &str) -> (r: Result<Self, AppNamespaceError>)
        ensures
            !namespace_part(app@) ==> r == Err::<Self, AppNamespaceError>(AppNamespaceError::InvalidApp),
            namespace_part(app@) && !namespace_part(environment@) ==> r == Err::<
                Self,
                AppNamespaceError,
            >(AppNamespaceError::InvalidEnvironment),
            namespace_part(app@) && namespace_part(environment@) ==> r is Ok && (r->Ok_0)@
                == spec_namespace(app@, environment@),
    {
        if !is_namespace_part(app) {
            return Err(AppNamespaceError::InvalidApp);
        }
        if !is_namespace_part(environment) {
            return Err(AppNamespaceError::InvalidEnvironment);
        }
        let mut namespace = app.to_owned();
        push_char(&mut namespace, '.');
        push_str(&mut namespace, environment);
        push_str(&mut namespace, ".presence.v1");
        proof {
            reveal_strlit(".");
            assert(namespace@ =~= spec_namespace(app@, environment@));
            assert(namespace_part(app@) && namespace_part(environment@) && namespace@
                == spec_namespace(app@, environment@));
        }
        Ok(RedisKeys { namespace })
    }

    /// The namespace all keys start with.
    pub fn namespace(&self) -> (r: &str)
        ensures
            r@ == self@,
            is_namespace(r@),
    {
        proof {
            use_type_invariant(self);
        }
        self.namespace.as_str()
    }

    /// The whole key whose part after the namespace is `rest`.
    fn key(&self, rest: &str) -> (r: String)
        ensures
            r@ == spec_key(self@, rest@),
            key_text(rest@) ==> key_text(r@),
    {
        proof {
            use_type_invariant(self);
            lemma_namespace_key_text(self@);
            if key_text(rest@) {
                lemma_key_text_join(self@, rest@);
            }
        }
        let mut key = self.namespace.clone();
        push_char(&mut key, '.');
        push_str(&mut key, rest);
        proof {
            reveal_strlit(".");
            assert(key@ =~= spec_key(self@, rest@));
        }
        key
    }

    fn channel_key(&self, channel: &ChannelKey, suffix: &str) -> (r: String)
        requires
            key_text(suffix@),
        ensures
            r@ == spec_channel_key(self@, channel@, suffix@),
            key_text(r@),
            encoded(channel@.0),
            encoded(channel@.1),
            forall|other: (Seq<char>, Seq<char>)|
                encoded(other.0) && encoded(other.1) && #[trigger] spec_channel_key(
                    self@,
                    other,
                    suffix@,
                ) == r@ ==> other == channel@,
    {
        let app = segment(channel.application_id.as_str());
        let name = segment(channel.channel.as_str());
        let rest = two_part_rest("app.", app.as_str(), ".channel.", name.as_str(), suffix);
        proof {
            lemma_literal_parts();
            lemma_two_part_key_text("app."@, channel@.0, ".channel."@, channel@.1, suffix@);
        }
        let r = self.key(rest.as_str());
        proof {
            assert forall|other: (Seq<char>, Seq<char>)|
                encoded(other.0) && encoded(other.1) && #[trigger] spec_channel_key(
                    self@,
                    other,
                    suffix@,
                ) == r@ implies other == channel@ by {
                lemma_key_rest(
                    self@,
                    two_part("app."@, other.0, ".channel."@, other.1, suffix@),
                    two_part("app."@, channel@.0, ".channel."@, channel@.1, suffix@),
                );
                lemma_two_part_injective("app."@, ".channel."@, other.0, other.1, channel@.0, channel@.1, suffix@);
            }
        }
        r
    }

    fn connection_key(&self, app: &ApplicationId, connection: &ConnectionId, suffix: &str) -> (r:
        String)
        requires
            key_text(suffix@),
        ensures
            r@ == spec_connection_key(self@, app@, connection@, suffix@),
            key_text(r@),
            encoded(app@),
            encoded(connection@),
            forall|a: Seq<char>, c: Seq<char>|
                encoded(a) && encoded(c) && #[trigger] spec_connection_key(self@, a, c, suffix@) == r@
                    ==> a == app@ && c == connection@,
    {
        let app_segment = segment(app.as_str());
        let connection_segment = segment(connection.as_str());
        let rest = two_part_rest(
            "app.",
            app_segment.as_str(),
            ".connection.",
            connection_segment.as_str(),
            suffix,
        );
        proof {
            lemma_literal_parts();
            lemma_two_part_key_text("app."@, app@, ".connection."@, connection@, suffix@);
        }
        let r = self.key(rest.as_str());
        proof {
            assert forall|a: Seq<char>, c: Seq<char>|
                encoded(a) && encoded(c) && #[trigger] spec_connection_key(self@, a, c, suffix@) == r@
                    implies a == app@ && c == connection@ by {
                lemma_key_rest(
                    self@,
                    two_part("app."@, a, ".connection."@, c, suffix@),
                    two_part("app."@, app@, ".connection."@, connection@, suffix@),
                );
                lemma_two_part_injective("app."@, ".connection."@, a, c, app@, connection@, suffix@);
            }
        }
        r
    }

    fn generation_key(&self, instance: &NodeInstance, suffix: &str) -> (r: String)
        requires
            key_text(suffix@),
        ensures
            r@ == spec_generation_key(self@, instance.node_id@, instance.boot_generation, suffix@),
            key_text(r@),
    {
        let mut rest = "generation".to_owned();
        push_char(&mut rest, '.');
        let run = generation(instance);
        push_str(&mut rest, run.as_str());
        push_char(&mut rest, '.');
        push_str(&mut rest, suffix);
        proof {
            reveal_strlit(".");
            reveal_strlit("generation");
            reveal_strlit("generation.");
            let id = generation_id(instance.node_id@, instance.boot_generation);
            assert(rest@ =~= "generation"@ + "."@ + id + "."@ + suffix@);
            assert("generation."@ =~= "generation"@ + "."@);
            assert(key_text("generation"@));
            lemma_key_text_join("generation"@, id);
            lemma_key_text_join("generation"@ + "."@ + id, suffix@);
        }
        self.key(rest.as_str())
    }

    /// HASH: the Presence and Occupancy versions and the six shared counters.
    pub fn channel_state(&self, channel: &ChannelKey) -> (r: String)
        ensures
            r@ == spec_channel_key(self@, channel@, "state"@),
            key_text(r@),
            encoded(channel@.0) && encoded(channel@.1),
            forall|other: (Seq<char>, Seq<char>)|
                encoded(other.0) && encoded(other.1) && #[trigger] spec_channel_key(
                    self@,
                    other,
                    "state"@,
                ) == r@ ==> other == channel@,
    {
        proof {
            reveal_strlit("state");
        }
        self.channel_key(channel, "state")
    }

    /// HASH: connection to attachment.
    pub fn channel_attachments(&self, channel: &ChannelKey) -> (r: String)
        ensures
            r@ == spec_channel_key(self@, channel@, "attachments"@),
            key_text(r@),
            encoded(channel@.0) && encoded(channel@.1),
            forall|other: (Seq<char>, Seq<char>)|
                encoded(other.0) && encoded(other.1) && #[trigger] spec_channel_key(
                    self@,
                    other,
                    "attachments"@,
                ) == r@ ==> other == channel@,
    {
        proof {
            reveal_strlit("attachments");
        }
        self.channel_key(channel, "attachments")
    }

    /// HASH: (connection, client) to Presence member.
    pub fn channel_members(&self, channel: &ChannelKey) -> (r: String)
        ensures
            r@ == spec_channel_key(self@, channel@, "members"@),
            key_text(r@),
            encoded(channel@.0) && encoded(channel@.1),
            forall|other: (Seq<char>, Seq<char>)|
                encoded(other.0) && encoded(other.1) && #[trigger] spec_channel_key(
                    self@,
                    other,
                    "members"@,
                ) == r@ ==> other == channel@,
    {
        proof {
            reveal_strlit("members");
        }
        self.channel_key(channel, "members")
    }

    /// HASH: node run to its absolute Occupancy shard and version.
    pub fn channel_shards(&self, channel: &ChannelKey) -> (r: String)
        ensures
            r@ == spec_channel_key(self@, channel@, "shards"@),
            key_text(r@),
            encoded(channel@.0) && encoded(channel@.1),
            forall|other: (Seq<char>, Seq<char>)|
                encoded(other.0) && encoded(other.1) && #[trigger] spec_channel_key(
                    self@,
                    other,
                    "shards"@,
                ) == r@ ==> other == channel@,
    {
        proof {
            reveal_strlit("shards");
        }
        self.channel_key(channel, "shards")
    }

    /// HASH: the node run, journal state, highest serial and close time.
    pub fn connection_state(&self, app: &ApplicationId, connection: &ConnectionId) -> (r: String)
        ensures
            r@ == spec_connection_key(self@, app@, connection@, "state"@),
            key_text(r@),
            encoded(app@) && encoded(connection@),
            forall|a: Seq<char>, c: Seq<char>|
                encoded(a) && encoded(c) && #[trigger] spec_connection_key(self@, a, c, "state"@)
                    == r@ ==> a == app@ && c == connection@,
    {
        proof {
            reveal_strlit("state");
        }
        self.connection_key(app, connection, "state")
    }

    /// SET: the channels of the connection's individual attachments.
    pub fn connection_channels(&self, app: &ApplicationId, connection: &ConnectionId) -> (r: String)
        ensures
            r@ == spec_connection_key(self@, app@, connection@, "channels"@),
            key_text(r@),
            encoded(app@) && encoded(connection@),
            forall|a: Seq<char>, c: Seq<char>|
                encoded(a) && encoded(c) && #[trigger] spec_connection_key(self@, a, c, "channels"@)
                    == r@ ==> a == app@ && c == connection@,
    {
        proof {
            reveal_strlit("channels");
        }
        self.connection_key(app, connection, "channels")
    }

    /// SET: (channel, client) of the connection's Presence members.
    pub fn connection_members(&self, app: &ApplicationId, connection: &ConnectionId) -> (r: String)
        ensures
            r@ == spec_connection_key(self@, app@, connection@, "members"@),
            key_text(r@),
            encoded(app@) && encoded(connection@),
            forall|a: Seq<char>, c: Seq<char>|
                encoded(a) && encoded(c) && #[trigger] spec_connection_key(self@, a, c, "members"@)
                    == r@ ==> a == app@ && c == connection@,
    {
        proof {
            reveal_strlit("members");
        }
        self.connection_key(app, connection, "members")
    }

    /// HASH: message serial to fingerprint and stored outcome.
    pub fn connection_operations(&self, app: &ApplicationId, connection: &ConnectionId) -> (r:
        String)
        ensures
            r@ == spec_connection_key(self@, app@, connection@, "operations"@),
            key_text(r@),
            encoded(app@) && encoded(connection@),
            forall|a: Seq<char>, c: Seq<char>|
                encoded(a) && encoded(c) && #[trigger] spec_connection_key(self@, a, c, "operations"@)
                    == r@ ==> a == app@ && c == connection@,
    {
        proof {
            reveal_strlit("operations");
        }
        self.connection_key(app, connection, "operations")
    }

    /// ZSET: the order of message serials in the journal's window; every
    /// score is 0.
    pub fn connection_operation_order(&self, app: &ApplicationId, connection: &ConnectionId) -> (r:
        String)
        ensures
            r@ == spec_connection_key(self@, app@, connection@, "operation-order"@),
            key_text(r@),
            encoded(app@) && encoded(connection@),
            forall|a: Seq<char>, c: Seq<char>|
                encoded(a) && encoded(c) && #[trigger] spec_connection_key(self@, a, c, "operation-order"@)
                    == r@ ==> a == app@ && c == connection@,
    {
        proof {
            reveal_strlit("operation-order");
        }
        self.connection_key(app, connection, "operation-order")
    }

    /// HASH: node run to its metadata; shared by all applications.
    pub fn generations(&self) -> (r: String)
        ensures
            r@ == spec_key(self@, "generations"@),
            key_text(r@),
    {
        proof {
            reveal_strlit("generations");
        }
        self.key("generations")
    }

    /// ZSET: node run to its deadline in Redis milliseconds.
    pub fn generation_deadlines(&self) -> (r: String)
        ensures
            r@ == spec_key(self@, "generation-deadlines"@),
            key_text(r@),
    {
        proof {
            reveal_strlit("generation-deadlines");
        }
        self.key("generation-deadlines")
    }

    /// SET: (application, connection) to clean up with a node run.
    pub fn generation_connections(&self, instance: &NodeInstance) -> (r: String)
        ensures
            r@ == spec_generation_key(self@, instance.node_id@, instance.boot_generation, "connections"@),
            key_text(r@),
    {
        proof {
            reveal_strlit("connections");
        }
        self.generation_key(instance, "connections")
    }

    /// SET: (application, channel) whose aggregated shards go with a node run.
    pub fn generation_shards(&self, instance: &NodeInstance) -> (r: String)
        ensures
            r@ == spec_generation_key(self@, instance.node_id@, instance.boot_generation, "shards"@),
            key_text(r@),
    {
        proof {
            reveal_strlit("shards");
        }
        self.generation_key(instance, "shards")
    }

    /// STREAM: the shared durable queue of canonical events.
    pub fn outbox(&self) -> (r: String)
        ensures
            r@ == spec_key(self@, "outbox"@),
            key_text(r@),
    {
        proof {
            reveal_strlit("outbox");
        }
        self.key("outbox")
    }

    /// ZSET: (application, channel) to its next Occupancy publish deadline.
    pub fn dirty_channels(&self) -> (r: String)
        ensures
            r@ == spec_key(self@, "dirty-channels"@),
            key_text(r@),
    {
        proof {
            reveal_strlit("dirty-channels");
        }
        self.key("dirty-channels")
    }

    /// HASH: (application, channel) to the claimed Occupancy version.
    pub fn occupancy_publications(&self) -> (r: String)
        ensures
            r@ == spec_key(self@, "occupancy-publications"@),
            key_text(r@),
    {
        proof {
            reveal_strlit("occupancy-publications");
        }
        self.key("occupancy-publications")
    }

    /// The lease of a node; it depends only on the node, so a new boot
    /// competes for the same lease.
    pub fn node_lease(&self, node: &NodeId) -> (r: String)
        ensures
            r@ == spec_key(self@, "lease.node."@ + base64_url(node@)),
            key_text(r@),
    {
        let mut rest = "lease.node.".to_owned();
        push_str(&mut rest, segment(node.as_str()).as_str());
        proof {
            reveal_strlit("lease.node.");
            let t = "lease.node."@ + base64_url(node@);
            assert forall|i: int| 0 <= i < t.len() implies key_char(#[trigger] t[i]) by {
                if i >= 11 {
                    assert(t[i] == base64_url(node@)[i - 11]);
                }
            }
        }
        self.key(rest.as_str())
    }

    /// The lease of the single outbox publisher of the namespace.
    pub fn publisher_lease(&self) -> (r: String)
        ensures
            r@ == spec_key(self@, "lease.publisher"@),
            key_text(r@),
    {
        proof {
            reveal_strlit("lease.publisher");
        }
        self.key("lease.publisher")
    }

    /// The cleanup lock of one node run; its owner is the reaper's run.
    pub fn cleanup_lease(&self, target: &NodeInstance) -> (r: String)
        ensures
            r@ == spec_key(
                self@,
                "lease.cleanup."@ + generation_id(target.node_id@, target.boot_generation),
            ),
            key_text(r@),
    {
        let mut rest = "lease.cleanup.".to_owned();
        push_str(&mut rest, generation(target).as_str());
        proof {
            reveal_strlit("lease.cleanup.");
            let id = generation_id(target.node_id@, target.boot_generation);
            let t = "lease.cleanup."@ + id;
            assert forall|i: int| 0 <= i < t.len() implies key_char(#[trigger] t[i]) by {
                if i >= 14 {
                    assert(t[i] == id[i - 14]);
                }
            }
        }
        self.key(rest.as_str())
    }
}

/// Keys of different namespaces differ: the keys of two applications, or of
/// two environments of one application, never meet.
pub proof fn lemma_namespaces_disjoint(
    namespace1: Seq<char>,
    namespace2: Seq<char>,
    rest1: Seq<char>,
    rest2: Seq<char>,
)
    requires
        is_namespace(namespace1),
        is_namespace(namespace2),
        namespace1 != namespace2,
    ensures
        spec_key(namespace1, rest1) != spec_key(namespace2, rest2),
{
    reveal_strlit(".");
    reveal_strlit(".presence.v1");
    let (a1, e1) = choose|app: Seq<char>, environment: Seq<char>|
        namespace_part(app) && namespace_part(environment) && namespace1 == spec_namespace(
            app,
            environment,
        );
    let (a2, e2) = choose|app: Seq<char>, environment: Seq<char>|
        namespace_part(app) && namespace_part(environment) && namespace2 == spec_namespace(
            app,
            environment,
        );
    if spec_key(namespace1, rest1) == spec_key(namespace2, rest2) {
        let empty = Seq::<char>::empty();
        let t1 = "."@ + e1 + ".presence.v1"@ + "."@ + rest1;
        let t2 = "."@ + e2 + ".presence.v1"@ + "."@ + rest2;
        assert(spec_key(namespace1, rest1) =~= empty + a1 + t1);
        assert(spec_key(namespace2, rest2) =~= empty + a2 + t2);
        lemma_split_segment(empty, a1, t1, a2, t2);
        let u1 = ".presence.v1"@ + "."@ + rest1;
        let u2 = ".presence.v1"@ + "."@ + rest2;
        assert(t1 =~= "."@ + e1 + u1);
        assert(t2 =~= "."@ + e2 + u2);
        assert(u1[0] == '.');
        assert(u2[0] == '.');
        lemma_split_segment("."@, e1, u1, e2, u2);
        assert(namespace1 == namespace2);
    }
}

/// The hyphenated form of a UUID is made of key characters.
pub proof fn lemma_uuid_key_text(value: u128)
    ensures
        key_text(hyphenated_uuid(value)),
{
    let t = hyphenated_uuid(value);
    assert forall|i: int| 0 <= i < t.len() implies key_char(#[trigger] t[i]) by {
        if !(i == 8 || i == 13 || i == 18 || i == 23) {
            let d = crate::text::nibble(value, hyphenated_digit(i));
            assert(d < 16);
        }
    }
}

/// A run's identifier is made of key characters.
pub proof fn lemma_generation_key_text(node_id: Seq<char>, boot_generation: u128)
    requires
        encoded(node_id),
    ensures
        key_text(generation_id(node_id, boot_generation)),
{
    lemma_uuid_key_text(boot_generation);
    lemma_key_text_join(base64_url(node_id), hyphenated_uuid(boot_generation));
}
} // verus!
