//! The text form of a single key's output.
//!
//! A key's output is written as text in which `\u{...}` (one to six hex
//! digits) stands for the character with that code point. The literal `\u{0}`
//! stands for "no output". When written back, characters that are invisible or
//! combine with their neighbours (Unicode categories Other, Separator and Mark)
//! are escaped again; all others are written as they are.
//!
//! Only the exact text `\u{0}` means "no output". A key whose output is the
//! character U+0000 is written `\u{00}`, which reads back as that character.
use vstd::prelude::*;
use crate::text::{chars_of, push_char};

verus! {

/// What a key produces; `None` marks a position that is deliberately unmapped.
#[derive(Clone, Debug, PartialEq, Eq, PartialOrd, Ord)]
pub struct KeyValue(pub Option<String>);

impl From<Option<String>> for KeyValue {
    fn from(x: Option<String>) -> KeyValue {
        KeyValue(x)
    }
}

impl vstd::std_specs::convert::FromSpecImpl<Option<String>> for KeyValue {
    open spec fn obeys_from_spec() -> bool {
        true
    }

    open spec fn from_spec(v: Option<String>) -> KeyValue {
        KeyValue(v)
    }
}

impl From<String> for KeyValue {
    fn from(x: String) -> KeyValue {
        KeyValue(Some(x))
    }
}

impl vstd::std_specs::convert::FromSpecImpl<String> for KeyValue {
    open spec fn obeys_from_spec() -> bool {
        true
    }

    open spec fn from_spec(v: String) -> KeyValue {
        KeyValue(Some(v))
    }
}

/// The characters of an optional string.
pub open spec fn opt_chars(o: Option<String>) -> Option<Seq<char>> {
    match o {
        Some(s) => Some(s@),
        None => None,
    }
}

impl KeyValue {
    /// The output as characters, `None` when unmapped.
    pub open spec fn view_chars(self) -> Option<Seq<char>> {
        opt_chars(self.0)
    }
}

// ---------------------------------------------------------------------------
// Decoding
// ---------------------------------------------------------------------------

pub open spec fn is_hex_digit(c: char) -> bool {
    (48 <= c as int <= 57) || (65 <= c as int <= 70) || (97 <= c as int <= 102)
}

pub open spec fn hex_digit_value(c: char) -> nat {
    if 48 <= c as int <= 57 {
        (c as int - 48) as nat
    } else if 65 <= c as int <= 70 {
        (c as int - 55) as nat
    } else {
        (c as int - 87) as nat
    }
}

/// The number written by a run of hex digits, most significant first.
pub open spec fn hex_value(ds: Seq<char>) -> nat
    decreases ds.len(),
{
    if ds.len() == 0 {
        0
    } else {
        hex_value(ds.drop_last()) * 16 + hex_digit_value(ds.last())
    }
}

/// `s[i..]` begins with `\u{`, then `k` hex digits (one to six), then `}`.
pub open spec fn escape_at(s: Seq<char>, i: int, k: int) -> bool {
    &&& 1 <= k <= 6
    &&& 0 <= i
    &&& i + k + 4 <= s.len()
    &&& s[i] == '\\'
    &&& s[i + 1] == 'u'
    &&& s[i + 2] == '{'
    &&& forall|j: int| i + 3 <= j < i + 3 + k ==> is_hex_digit(#[trigger] s[j])
    &&& s[i + 3 + k] == '}'
}

/// The number of hex digits of the escape that starts at `i`, or 0 where none
/// starts there.
pub open spec fn escape_width(s: Seq<char>, i: int) -> int {
    if exists|k: int| escape_at(s, i, k) {
        choose|k: int| escape_at(s, i, k)
    } else {
        0
    }
}

pub open spec fn is_scalar_value(n: int) -> bool {
    (0 <= n <= 0xD7FF) || (0xE000 <= n <= 0x10FFFF)
}

/// The character with code point `n`; U+FFFD where `n` is no Unicode scalar
/// value.
pub open spec fn char_of_code(n: nat) -> char {
    if is_scalar_value(n as int) {
        n as char
    } else {
        '\u{FFFD}'
    }
}

/// The character that the escape of width `k` at `i` stands for.
pub open spec fn escaped_char(s: Seq<char>, i: int, k: int) -> char {
    char_of_code(hex_value(s.subrange(i + 3, i + 3 + k)))
}

/// `s[i..]` with every escape replaced, scanning left to right.
pub open spec fn decode_from(s: Seq<char>, i: int) -> Seq<char>
    decreases s.len() - i,
{
    if i < 0 || i >= s.len() {
        Seq::empty()
    } else if escape_width(s, i) > 0 {
        let k = escape_width(s, i);
        seq![escaped_char(s, i, k)] + decode_from(s, i + k + 4)
    } else {
        seq![s[i]] + decode_from(s, i + 1)
    }
}

/// `s` with every escape replaced by the character it stands for.
pub open spec fn decode_escapes(s: Seq<char>) -> Seq<char> {
    decode_from(s, 0)
}

/// The text that marks an unmapped key: `\u{0}`.
pub open spec fn unset_text() -> Seq<char> {
    seq!['\\', 'u', '{', '0', '}']
}

/// What a key's text stands for.
pub open spec fn decode_key(s: Seq<char>) -> Option<Seq<char>> {
    if s == unset_text() {
        None
    } else {
        Some(decode_escapes(s))
    }
}

proof fn lemma_escape_unique(s: Seq<char>, i: int, k: int)
    requires
        escape_at(s, i, k),
    ensures
        escape_width(s, i) == k,
{
    assert forall|k2: int| escape_at(s, i, k2) implies k2 == k by {
        if k2 < k {
            assert(is_hex_digit(s[i + 3 + k2]));
        } else if k < k2 {
            assert(is_hex_digit(s[i + 3 + k]));
        }
    }
}

fn is_hex(c: char) -> (r: bool)
    ensures
        r == is_hex_digit(c),
{
    let n = c as u32;
    (48 <= n && n <= 57) || (65 <= n && n <= 70) || (97 <= n && n <= 102)
}

fn hex_digit(c: char) -> (r: u32)
    requires
        is_hex_digit(c),
    ensures
        r as nat == hex_digit_value(c),
        r < 16,
{
    let n = c as u32;
    if n <= 57 {
        n - 48
    } else if n <= 70 {
        n - 55
    } else {
        n - 87
    }
}

/// Width of the escape at `i`, as `escape_width` gives it.
fn escape_width_at(s: &Vec<char>, i: usize) -> (k: usize)
    requires
        i < s@.len(),
    ensures
        k as int == escape_width(s@, i as int),
        k == 0 || escape_at(s@, i as int, k as int),
{
    let n = s.len();
    if n - i < 5 || s[i] != '\\' || s[i + 1] != 'u' || s[i + 2] != '{' {
        assert forall|k: int| !escape_at(s@, i as int, k) by {}
        return 0;
    }
    let start = i + 3;
    let mut j: usize = 0;
    while j < 7 && start + j < n && is_hex(s[start + j])
        invariant
            start == i + 3,
            start < n == s@.len(),
            j <= 7,
            start + j <= n,
            forall|t: int| start <= t < start + j ==> is_hex_digit(#[trigger] s@[t]),
        decreases 7 - j,
    {
        j = j + 1;
    }
    if 1 <= j && j <= 6 && start + j < n && s[start + j] == '}' {
        assert(escape_at(s@, i as int, j as int));
        proof {
            lemma_escape_unique(s@, i as int, j as int);
        }
        j
    } else {
        assert forall|k: int| !escape_at(s@, i as int, k) by {
            if escape_at(s@, i as int, k) {
                if k < j {
                    assert(is_hex_digit(s@[start + k]));
                } else if k > j {
                    assert(is_hex_digit(s@[start + j]));
                }
            }
        }
        0
    }
}

pub open spec fn pow16(n: nat) -> nat
    decreases n,
{
    if n == 0 {
        1
    } else {
        16 * pow16((n - 1) as nat)
    }
}

proof fn lemma_pow16_mono(a: nat, b: nat)
    requires
        a <= b,
    ensures
        pow16(a) <= pow16(b),
    decreases b,
{
    if a < b {
        lemma_pow16_mono(a, (b - 1) as nat);
    }
}

/// The number written by the `k` hex digits at `s[from..]`.
fn hex_value_at(s: &Vec<char>, from: usize, k: usize) -> (r: u32)
    requires
        1 <= k <= 6,
        from + k <= s@.len(),
        forall|t: int| from <= t < from + k ==> is_hex_digit(#[trigger] s@[t]),
    ensures
        r as nat == hex_value(s@.subrange(from as int, from + k)),
{
    let n = s.len();
    let mut v: u32 = 0;
    let mut j: usize = 0;
    while j < k
        invariant
            n == s@.len(),
            1 <= k <= 6,
            from + k <= s@.len(),
            forall|t: int| from <= t < from + k ==> is_hex_digit(#[trigger] s@[t]),
            j <= k,
            v as nat == hex_value(s@.subrange(from as int, from + j)),
            v < pow16(j as nat),
        decreases k - j,
    {
        proof {
            lemma_pow16_mono(j as nat, 5);
            reveal_with_fuel(pow16, 6);
            let sub = s@.subrange(from as int, from + j + 1);
            assert(sub.drop_last() == s@.subrange(from as int, from + j));
        }
        let d = hex_digit(s[from + j]);
        v = v * 16 + d;
        j = j + 1;
    }
    v
}

/// Relies on `char::from_u32`: `Some` exactly for Unicode scalar values.
#[verifier::external_body]
fn char_from_u32(n: u32) -> (r: Option<char>)
    ensures
        r == (if is_scalar_value(n as int) { Some(n as char) } else { None::<char> }),
{
    char::from_u32(n)
}

/// Replaces every `\u{...}` escape (one to six hex digits) by the character it
/// stands for; a code point that is no Unicode scalar value gives U+FFFD.
pub fn decode_unicode_escapes(input: &str) -> (r: String)
    ensures
        r@ == decode_escapes(input@),
{
    let s = chars_of(input);
    let n = s.len();
    let mut out = String::new();
    let mut i: usize = 0;
    while i < n
        invariant
            i <= n == s@.len(),
            s@ == input@,
            out@ + decode_from(s@, i as int) == decode_from(s@, 0),
        decreases n - i,
    {
        let k = escape_width_at(&s, i);
        if k > 0 {
            let code = hex_value_at(&s, i + 3, k);
            let c = match char_from_u32(code) {
                Some(c) => c,
                None => '\u{FFFD}',
            };
            assert(c == escaped_char(s@, i as int, k as int));
            proof {
                let rest = decode_from(s@, i + k + 4);
                assert(out@.push(c) + rest == out@ + (seq![c] + rest));
            }
            push_char(&mut out, c);
            i = i + k + 4;
        } else {
            let c = s[i];
            proof {
                let rest = decode_from(s@, i + 1);
                assert(out@.push(c) + rest == out@ + (seq![c] + rest));
            }
            push_char(&mut out, c);
            i = i + 1;
        }
    }
    assert(out@ + Seq::empty() == out@);
    out
}

fn is_unset_text(s: &Vec<char>) -> (r: bool)
    ensures
        r == (s@ == unset_text()),
{
    let r = s.len() == 5 && s[0] == '\\' && s[1] == 'u' && s[2] == '{' && s[3] == '0' && s[4] == '}';
    if r {
        assert(s@ == unset_text());
    }
    r
}

/// Reads a key's text: `None` for `\u{0}`, else the text with its escapes
/// replaced.
pub fn deserialize(input: &str) -> (r: Option<String>)
    ensures
        opt_chars(r) == decode_key(input@),
        r is None <==> input@ == unset_text(),
{
    let s = chars_of(input);
    if is_unset_text(&s) {
        None
    } else {
        Some(decode_unicode_escapes(input))
    }
}

// ---------------------------------------------------------------------------
// Encoding
// ---------------------------------------------------------------------------

/// The character's Unicode general category is one of Other (Cc, Cf, Cs, Co, Cn).
pub uninterp spec fn is_other_category(c: char) -> bool;

/// The character's Unicode general category is one of Separator (Zs, Zl, Zp).
pub uninterp spec fn is_separator_category(c: char) -> bool;

/// The character's Unicode general category is one of Mark (Mn, Mc, Me).
pub uninterp spec fn is_mark_category(c: char) -> bool;

/// Relies on `unic_ucd_category::GeneralCategory::of` and `is_other`.
#[verifier::external_body]
fn char_is_other(c: char) -> (r: bool)
    ensures
        r == is_other_category(c),
{
    unic_ucd_category::GeneralCategory::of(c).is_other()
}

/// Relies on `unic_ucd_category::GeneralCategory::of` and `is_separator`.
#[verifier::external_body]
fn char_is_separator(c: char) -> (r: bool)
    ensures
        r == is_separator_category(c),
{
    unic_ucd_category::GeneralCategory::of(c).is_separator()
}

/// Relies on `unic_ucd_category::GeneralCategory::of` and `is_mark`.
#[verifier::external_body]
fn char_is_mark(c: char) -> (r: bool)
    ensures
        r == is_mark_category(c),
{
    unic_ucd_category::GeneralCategory::of(c).is_mark()
}

/// Characters written back as escapes.
pub open spec fn needs_escape(c: char) -> bool {
    is_other_category(c) || is_separator_category(c) || is_mark_category(c)
}

/// The lower-case hex digit for `d < 16`.
pub open spec fn hex_char(d: nat) -> char {
    if d < 10 {
        (48 + d) as char
    } else {
        (87 + d) as char
    }
}

/// `n` in lower-case hex, without leading zeros (`0` for zero).
pub open spec fn hex_digits(n: nat) -> Seq<char>
    decreases n,
{
    if n < 16 {
        seq![hex_char(n)]
    } else {
        hex_digits(n / 16).push(hex_char(n % 16))
    }
}

/// `\u{...}` with the character's code point in lower-case hex, as
/// `char::escape_unicode` writes it.
pub open spec fn escape_of(c: char) -> Seq<char> {
    seq!['\\', 'u', '{'] + hex_digits(c as nat) + seq!['}']
}

/// How U+0000 is written, so that it does not read back as "no output".
pub open spec fn nul_text() -> Seq<char> {
    seq!['\\', 'u', '{', '0', '0', '}']
}

/// Characters written as they are.
pub open spec fn written_plain(c: char) -> bool {
    c != '\0' && !needs_escape(c)
}

/// How one character is written back.
pub open spec fn piece(c: char) -> Seq<char> {
    if c == '\0' {
        nul_text()
    } else if needs_escape(c) {
        escape_of(c)
    } else {
        seq![c]
    }
}

/// Every character of `y` written back, in order.
pub open spec fn escape_all(y: Seq<char>) -> Seq<char>
    decreases y.len(),
{
    if y.len() == 0 {
        Seq::empty()
    } else {
        escape_all(y.drop_last()) + piece(y.last())
    }
}

/// The text written for a key's output.
pub open spec fn encode_key(v: Option<Seq<char>>) -> Seq<char> {
    match v {
        None => unset_text(),
        Some(x) => escape_all(decode_escapes(x)),
    }
}

fn needs_escape_exec(c: char) -> (r: bool)
    ensures
        r == needs_escape(c),
{
    char_is_other(c) || char_is_separator(c) || char_is_mark(c)
}

fn hex_char_exec(d: u32) -> (r: char)
    requires
        d < 16,
    ensures
        r == hex_char(d as nat),
{
    if d < 10 {
        ((48 + d) as u8) as char
    } else {
        ((87 + d) as u8) as char
    }
}

fn push_hex(out: &mut String, n: u32)
    ensures
        final(out)@ == old(out)@ + hex_digits(n as nat),
    decreases n,
{
    if n >= 16 {
        push_hex(out, n / 16);
    }
    push_char(out, hex_char_exec(n % 16));
}

fn push_piece(out: &mut String, c: char)
    ensures
        final(out)@ == old(out)@ + piece(c),
{
    if c == '\0' {
        push_char(out, '\\');
        push_char(out, 'u');
        push_char(out, '{');
        push_char(out, '0');
        push_char(out, '0');
        push_char(out, '}');
        assert(final(out)@ =~= old(out)@ + nul_text());
    } else if needs_escape_exec(c) {
        push_char(out, '\\');
        push_char(out, 'u');
        push_char(out, '{');
        push_hex(out, c as u32);
        push_char(out, '}');
        assert(final(out)@ == old(out)@ + escape_of(c));
    } else {
        push_char(out, c);
    }
}

fn unset_string() -> (r: String)
    ensures
        r@ == unset_text(),
{
    let mut s = String::new();
    push_char(&mut s, '\\');
    push_char(&mut s, 'u');
    push_char(&mut s, '{');
    push_char(&mut s, '0');
    push_char(&mut s, '}');
    s
}

/// Writes a key's output as text: `\u{0}` for `None`; otherwise the text with
/// its escapes replaced, then every Other, Separator or Mark character escaped
/// (U+0000 as `\u{00}`).
pub fn serialize(input: &Option<String>) -> (r: String)
    ensures
        r@ == encode_key(opt_chars(*input)),
{
    match input {
        None => unset_string(),
        Some(x) => {
            let decoded = decode_unicode_escapes(x.as_str());
            let cs = chars_of(decoded.as_str());
            let mut out = String::new();
            let mut i: usize = 0;
            while i < cs.len()
                invariant
                    i <= cs@.len(),
                    cs@ == decode_escapes(x@),
                    out@ == escape_all(cs@.take(i as int)),
                decreases cs@.len() - i,
            {
                assert(cs@.take(i + 1).drop_last() == cs@.take(i as int));
                push_piece(&mut out, cs[i]);
                i = i + 1;
            }
            assert(cs@.take(cs@.len() as int) == cs@);
            out
        }
    }
}

// ---------------------------------------------------------------------------
// Laws
// ---------------------------------------------------------------------------

proof fn lemma_hex_char(d: nat)
    requires
        d < 16,
    ensures
        is_hex_digit(hex_char(d)),
        hex_digit_value(hex_char(d)) == d,
        hex_char(d) == '0' <==> d == 0,
{
}

proof fn lemma_hex_digits(n: nat, k: nat)
    requires
        1 <= k,
        n < pow16(k),
    ensures
        1 <= hex_digits(n).len() <= k,
        forall|j: int| 0 <= j < hex_digits(n).len() ==> is_hex_digit(#[trigger] hex_digits(n)[j]),
        hex_value(hex_digits(n)) == n,
        hex_digits(n) == seq!['0'] <==> n == 0,
    decreases n,
{
    if n < 16 {
        lemma_hex_char(n);
        let ds = hex_digits(n);
        assert(ds.drop_last() =~= Seq::<char>::empty());
        assert(ds.last() == hex_char(n));
        assert(hex_value(ds) == hex_value(ds.drop_last()) * 16 + hex_digit_value(ds.last()));
        if n == 0 {
            assert(ds =~= seq!['0']);
        } else {
            assert(ds[0] != seq!['0'][0]);
        }
    } else {
        assert(k >= 2) by {
            if k == 1 {
                reveal_with_fuel(pow16, 2);
            }
        }
        lemma_hex_digits(n / 16, (k - 1) as nat);
        lemma_hex_char(n % 16);
        let ds = hex_digits(n);
        assert(ds.drop_last() == hex_digits(n / 16));
        assert(ds.last() == hex_char(n % 16));
        assert(hex_value(ds) == hex_value(ds.drop_last()) * 16 + hex_digit_value(ds.last()));
        assert(n == (n / 16) * 16 + n % 16);
        assert(ds.len() >= 2);
    }
}

/// Escapes found in `b` are found at the same place in `a + b`, and decoding
/// the tail of `a + b` that is `b` decodes `b`.
proof fn lemma_decode_shift(a: Seq<char>, b: Seq<char>, j: int)
    requires
        0 <= j,
    ensures
        decode_from(a + b, a.len() + j) == decode_from(b, j),
    decreases b.len() - j,
{
    let s = a + b;
    let i = a.len() + j;
    if j < b.len() {
        assert forall|k: int| escape_at(s, i, k) <==> escape_at(b, j, k) by {
            if escape_at(s, i, k) {
                assert forall|t: int| j + 3 <= t < j + 3 + k implies is_hex_digit(#[trigger] b[t]) by {
                    assert(s[a.len() + t] == b[t]);
                }
            }
            if escape_at(b, j, k) {
                assert forall|t: int| i + 3 <= t < i + 3 + k implies is_hex_digit(#[trigger] s[t]) by {
                    assert(s[t] == b[t - a.len()]);
                }
            }
        }
        let k = escape_width(b, j);
        if k > 0 {
            assert(s.subrange(i + 3, i + 3 + k) == b.subrange(j + 3, j + 3 + k));
            lemma_decode_shift(a, b, j + k + 4);
        } else {
            lemma_decode_shift(a, b, j + 1);
        }
    }
}

/// An escape as `escape_of` writes it decodes to its character, whatever
/// follows it.
proof fn lemma_decode_escape_of(c: char, rest: Seq<char>)
    ensures
        decode_escapes(escape_of(c) + rest) == seq![c] + decode_escapes(rest),
{
    let ds = hex_digits(c as nat);
    assert(pow16(6) == 0x1000000) by {
        reveal_with_fuel(pow16, 7);
    }
    lemma_hex_digits(c as nat, 6);
    let e = escape_of(c);
    let s = e + rest;
    let k = ds.len() as int;
    assert forall|t: int| 3 <= t < 3 + k implies is_hex_digit(#[trigger] s[t]) by {
        assert(s[t] == ds[t - 3]);
    }
    assert(escape_at(s, 0, k));
    lemma_escape_unique(s, 0, k);
    assert(s.subrange(3, 3 + k) == ds);
    assert(escaped_char(s, 0, k) == c);
    lemma_decode_shift(e, rest, 0);
    assert(e.len() == k + 4);
}

/// `\u{00}` decodes to U+0000, whatever follows it.
proof fn lemma_decode_nul(rest: Seq<char>)
    ensures
        decode_escapes(nul_text() + rest) == seq!['\0'] + decode_escapes(rest),
{
    let e = nul_text();
    let s = e + rest;
    assert(escape_at(s, 0, 2));
    lemma_escape_unique(s, 0, 2);
    let ds = s.subrange(3, 5);
    assert(ds =~= seq!['0', '0']);
    assert(ds.drop_last() =~= seq!['0']);
    assert(ds.drop_last().drop_last() =~= Seq::<char>::empty());
    assert(hex_value(ds.drop_last().drop_last()) == 0);
    assert(ds.drop_last().last() == '0' && ds.last() == '0');
    assert(hex_digit_value('0') == 0);
    assert(hex_value(ds.drop_last()) == 0);
    assert(hex_value(ds) == 0);
    assert(escaped_char(s, 0, 2) == '\0');
    lemma_decode_shift(e, rest, 0);
}

/// A single character that starts no escape decodes to itself.
proof fn lemma_decode_literal(c: char, rest: Seq<char>)
    requires
        escape_width(seq![c] + rest, 0) == 0,
    ensures
        decode_escapes(seq![c] + rest) == seq![c] + decode_escapes(rest),
{
    lemma_decode_shift(seq![c], rest, 0);
}

proof fn lemma_escape_of_not_unset(c: char)
    requires
        c != '\0',
    ensures
        escape_of(c) != unset_text(),
{
    assert(pow16(6) == 0x1000000) by {
        reveal_with_fuel(pow16, 7);
    }
    lemma_hex_digits(c as nat, 6);
    if escape_of(c) == unset_text() {
        assert(hex_digits(c as nat) == escape_of(c).subrange(3, 4));
        assert(hex_digits(c as nat) == seq!['0']);
    }
}

/// The text that marks an unmapped key reads as `None`, `None` is written as
/// that text, and no other text reads as `None`.
pub proof fn lemma_unset_sentinel(s: Seq<char>)
    ensures
        decode_key(unset_text()) is None,
        encode_key(None) == unset_text(),
        decode_key(s) is None <==> s == unset_text(),
{
}

/// Its `\u{...}` escape reads as exactly the character, for every character
/// but U+0000 (whose escape `\u{0}` means "no output"); and for every
/// character, writing it, reading that text back and writing again gives the
/// same text as writing it once.
pub proof fn lemma_escape_round_trip(c: char)
    ensures
        c != '\0' ==> decode_key(escape_of(c)) == Some(seq![c]),
        decode_key(encode_key(Some(seq![c]))) == Some(seq![c]),
        encode_key(decode_key(encode_key(Some(seq![c])))) == encode_key(Some(seq![c])),
{
    if c != '\0' {
        lemma_escape_of_not_unset(c);
        lemma_decode_escape_of(c, Seq::empty());
        assert(escape_of(c) + Seq::<char>::empty() == escape_of(c));
    }
    lemma_decode_nul(Seq::empty());
    assert(nul_text() + Seq::<char>::empty() == nul_text());
    assert(decode_escapes(Seq::<char>::empty()) == Seq::<char>::empty());
    assert(seq![c] + Seq::<char>::empty() == seq![c]);
    // a single character starts no escape
    assert(escape_width(seq![c] + Seq::<char>::empty(), 0) == 0);
    lemma_decode_literal(c, Seq::empty());
    assert(decode_escapes(seq![c]) == seq![c]);
    lemma_escape_all_single(c);
    assert(piece(c) != unset_text()) by {
        if c == '\0' {
            assert(piece(c).len() == 6);
        } else if !needs_escape(c) {
            assert(piece(c).len() == 1);
        }
    }
    assert(decode_escapes(piece(c)) == seq![c]);
}

/// No escape starts anywhere in `y`.
pub open spec fn has_no_escape(y: Seq<char>) -> bool {
    forall|i: int, k: int| !escape_at(y, i, k)
}

proof fn lemma_decode_no_escape(y: Seq<char>, i: int)
    requires
        has_no_escape(y),
        0 <= i <= y.len(),
    ensures
        decode_from(y, i) == y.skip(i),
    decreases y.len() - i,
{
    if i < y.len() {
        assert(!exists|k: int| escape_at(y, i, k));
        lemma_decode_no_escape(y, i + 1);
        assert(y.skip(i) =~= seq![y[i]] + y.skip(i + 1));
    } else {
        assert(y.skip(i) =~= Seq::<char>::empty());
    }
}

proof fn lemma_escape_all_concat(a: Seq<char>, b: Seq<char>)
    ensures
        escape_all(a + b) == escape_all(a) + escape_all(b),
    decreases b.len(),
{
    if b.len() == 0 {
        assert(a + b =~= a);
        assert(escape_all(a) + Seq::<char>::empty() =~= escape_all(a));
    } else {
        assert((a + b).drop_last() =~= a + b.drop_last());
        assert((a + b).last() == b.last());
        lemma_escape_all_concat(a, b.drop_last());
        assert(escape_all(a) + escape_all(b.drop_last()) + piece(b.last()) =~= escape_all(a) + (escape_all(
            b.drop_last(),
        ) + piece(b.last())));
    }
}

proof fn lemma_escape_all_single(c: char)
    ensures
        escape_all(seq![c]) == piece(c),
{
    assert(seq![c].drop_last() =~= Seq::<char>::empty());
    assert(seq![c].last() == c);
    assert(escape_all(Seq::<char>::empty()) == Seq::<char>::empty());
    assert(Seq::<char>::empty() + piece(c) =~= piece(c));
}

proof fn lemma_escape_all_cons(c: char, t: Seq<char>)
    ensures
        escape_all(seq![c] + t) == piece(c) + escape_all(t),
{
    lemma_escape_all_concat(seq![c], t);
    lemma_escape_all_single(c);
}

proof fn lemma_escape_all_literal(t: Seq<char>)
    requires
        forall|i: int| 0 <= i < t.len() ==> written_plain(#[trigger] t[i]),
    ensures
        escape_all(t) == t,
    decreases t.len(),
{
    if t.len() > 0 {
        lemma_escape_all_literal(t.drop_last());
        assert(t.drop_last().push(t.last()) =~= t);
    }
}

/// Where `\` followed by the written form of `t` starts an escape of width
/// `k`, the first `m <= k + 3` characters of `t` are all written as they are.
proof fn lemma_literal_prefix(t: Seq<char>, k: int, m: int)
    requires
        escape_at(seq!['\\'] + escape_all(t), 0, k),
        0 <= m <= k + 3,
    ensures
        m <= t.len(),
        forall|i: int| 0 <= i < m ==> written_plain(#[trigger] t[i]),
    decreases m,
{
    if m > 0 {
        let s = seq!['\\'] + escape_all(t);
        lemma_literal_prefix(t, k, m - 1);
        let j = m - 1;
        let head = t.take(j);
        let tail = t.skip(j);
        assert(t =~= head + tail);
        assert forall|i: int| 0 <= i < head.len() implies written_plain(#[trigger] head[i]) by {
            assert(head[i] == t[i]);
        }
        lemma_escape_all_literal(head);
        lemma_escape_all_concat(head, tail);
        // the character of `s` at `m` belongs to the escape and is no backslash
        assert(s[m] != '\\') by {
            if m >= 3 && m < 3 + k {
                assert(is_hex_digit(s[m]));
            }
        }
        assert(s[m] == escape_all(t)[j]);
        assert(escape_all(t) == head + escape_all(tail));
        if tail.len() == 0 {
            assert(escape_all(tail) =~= Seq::<char>::empty());
            assert(false);
        }
        assert(tail =~= seq![t[j]] + tail.drop_first());
        lemma_escape_all_cons(t[j], tail.drop_first());
        assert(escape_all(t)[j] == piece(t[j])[0]);
        if !written_plain(t[j]) {
            assert(piece(t[j])[0] == '\\');
        }
    }
}

/// Reading back what `escape_all` wrote gives the text again, where the text
/// holds no escape of its own.
proof fn lemma_decode_escape_all(y: Seq<char>)
    requires
        has_no_escape(y),
    ensures
        decode_escapes(escape_all(y)) == y,
    decreases y.len(),
{
    if y.len() == 0 {
        assert(escape_all(y) =~= Seq::<char>::empty());
        assert(y =~= Seq::<char>::empty());
    } else {
        let c = y[0];
        let t = y.drop_first();
        assert(y =~= seq![c] + t);
        assert forall|i: int, k: int| !escape_at(t, i, k) by {
            if escape_at(t, i, k) {
                assert forall|j: int| i + 1 + 3 <= j < i + 1 + 3 + k implies is_hex_digit(#[trigger] y[j]) by {
                    assert(y[j] == t[j - 1]);
                }
                assert(escape_at(y, i + 1, k));
            }
        }
        lemma_decode_escape_all(t);
        lemma_escape_all_cons(c, t);
        if c == '\0' {
            lemma_decode_nul(escape_all(t));
        } else if needs_escape(c) {
            lemma_decode_escape_of(c, escape_all(t));
        } else {
            let s = seq![c] + escape_all(t);
            assert forall|k: int| !escape_at(s, 0, k) by {
                if escape_at(s, 0, k) {
                    assert(s == seq!['\\'] + escape_all(t));
                    lemma_literal_prefix(t, k, k + 3);
                    let head = t.take(k + 3);
                    assert forall|i: int| 0 <= i < head.len() implies written_plain(#[trigger] head[i]) by {
                        assert(head[i] == t[i]);
                    }
                    lemma_escape_all_literal(head);
                    lemma_escape_all_concat(head, t.skip(k + 3));
                    assert(t =~= head + t.skip(k + 3));
                    assert forall|j: int| 0 <= j < k + 4 implies s[j] == y[j] by {
                        if j > 0 {
                            assert(s[j] == escape_all(t)[j - 1]);
                            assert(escape_all(t)[j - 1] == head[j - 1]);
                        }
                    }
                    assert forall|j: int| 3 <= j < 3 + k implies is_hex_digit(#[trigger] y[j]) by {
                        assert(s[j] == y[j]);
                    }
                    assert(escape_at(y, 0, k));
                }
            }
            lemma_decode_literal(c, escape_all(t));
        }
    }
}

/// Writing what a key's text stands for is idempotent: writing, reading back
/// and writing again gives the text written first. This holds wherever the
/// text, with its escapes replaced twice (once on reading, once on writing),
/// holds no escape; `\u{5c}u{5c}u{41}` is a text where it fails.
pub proof fn lemma_encode_decode_idempotent(s: Seq<char>)
    requires
        has_no_escape(decode_escapes(decode_escapes(s))),
    ensures
        encode_key(decode_key(encode_key(decode_key(s)))) == encode_key(decode_key(s)),
{
    if s != unset_text() {
        let y = decode_escapes(decode_escapes(s));
        let f = escape_all(y);
        if f != unset_text() {
            lemma_decode_escape_all(y);
            lemma_decode_no_escape(y, 0);
            assert(y.skip(0) =~= y);
        }
    }
}

} // verus!
