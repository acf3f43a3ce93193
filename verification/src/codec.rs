//! The durable form of a session: a three-field record framed as a
//! key/value text and passed through a URL-safe, padding-free base64
//! transform.
//!
//! The framing (quoting, escaping, and the record shape) is this crate's
//! own logic and is verified down to the character level.  The base64
//! transform and the UTF-8 conversion are performed by outside code behind
//! the trusted items below.

use vstd::prelude::*;
use vstd::utf8::{encode_utf8, decode_utf8, valid_utf8};
use vstd::utf8::{encode_utf8_valid_utf8, encode_utf8_decode_utf8};
use vstd::string::StrSliceExecFns;
use base64::Engine;

verus! {

// ---------------------------------------------------------------------------
// Trusted boundary: base64 and UTF-8/char conversions.
// ---------------------------------------------------------------------------

/// What the URL-safe, padding-free base64 transform makes of a byte string.
/// The exact digits are never needed by the logic, only that the transform
/// is a fixed function of the bytes; callers reason through this name.
pub uninterp spec fn b64url_of(bytes: Seq<u8>) -> Seq<char>;

/// Relies on `base64`'s `URL_SAFE_NO_PAD` engine: `encode` returns the
/// URL-safe, unpadded base64 text of the input bytes.
#[verifier::external_body]
fn b64_encode(bytes: &Vec<u8>) -> (r: String)
    ensures
        r@ == b64url_of(bytes@),
{
    base64::engine::general_purpose::URL_SAFE_NO_PAD.encode(bytes.as_slice())
}

/// Relies on `base64`'s `URL_SAFE_NO_PAD` engine: `decode` accepts exactly
/// the texts that `encode` produces (the engine refuses padding and
/// non-zero trailing bits), and on those returns the encoded bytes.
#[verifier::external_body]
fn b64_decode(s: &str) -> (r: Option<Vec<u8>>)
    ensures
        match r {
            Some(b) => s@ == b64url_of(b@) && (forall|b2: Seq<u8>| s@ == b64url_of(b2) ==> b2 == b@),
            None => forall|b2: Seq<u8>| s@ != b64url_of(b2),
        },
{
    base64::engine::general_purpose::URL_SAFE_NO_PAD.decode(s).ok()
}

/// Relies on `String::from_utf8`: it succeeds exactly on valid UTF-8 and
/// returns the decoded characters.
#[verifier::external_body]
fn utf8_to_string(bytes: Vec<u8>) -> (r: Option<String>)
    ensures
        match r {
            Some(s) => valid_utf8(bytes@) && s@ == decode_utf8(bytes@),
            None => !valid_utf8(bytes@),
        },
{
    String::from_utf8(bytes).ok()
}

/// Relies on `str::chars`: the characters of a string slice, in order.
#[verifier::external_body]
fn str_chars(s: &str) -> (r: Vec<char>)
    ensures
        r@ == s@,
{
    s.chars().collect()
}

/// Relies on `String`'s `FromIterator<char>`: the characters, joined back
/// into a string.
#[verifier::external_body]
fn chars_to_string(v: &Vec<char>) -> (r: String)
    ensures
        r@ == v@,
{
    v.iter().collect()
}

// ---------------------------------------------------------------------------
// The record and its model.
// ---------------------------------------------------------------------------

/// The minimal projection of a session that is worth persisting: the two
/// tokens and the stable actor identifier.
pub struct SessionCookie {
    pub access: String,
    pub did: String,
    pub refresh: String,
}

/// Mathematical model of a [`SessionCookie`]: the three fields as
/// character sequences.
#[verifier::ext_equal]
pub ghost struct CookieModel {
    pub access: Seq<char>,
    pub did: Seq<char>,
    pub refresh: Seq<char>,
}

impl View for SessionCookie {
    type V = CookieModel;

    open spec fn view(&self) -> CookieModel {
        CookieModel { access: self.access@, did: self.did@, refresh: self.refresh@ }
    }
}

/// Why a cached text was refused.
#[derive(Clone, Copy, PartialEq, Eq, Structural, Debug)]
pub enum DecodeError {
    /// Not a URL-safe, padding-free base64 text.
    Base64,
    /// The bytes under the base64 transform are not UTF-8.
    Utf8,
    /// The text under the transform is not a record with exactly the three
    /// required fields.
    Payload,
}

// ---------------------------------------------------------------------------
// The framed text, as specification.
// ---------------------------------------------------------------------------

/// How a single character appears inside a quoted value: the quote and the
/// backslash are backslash-escaped, everything else stands for itself.
pub open spec fn escape_char(c: char) -> Seq<char> {
    if c == '"' || c == '\\' {
        seq!['\\', c]
    } else {
        seq![c]
    }
}

/// A whole value with every character escaped.
pub open spec fn escaped(s: Seq<char>) -> Seq<char>
    decreases s.len(),
{
    if s.len() == 0 {
        Seq::empty()
    } else {
        escape_char(s[0]) + escaped(s.skip(1))
    }
}

/// A value between its quotes.
pub open spec fn quoted(v: Seq<char>) -> Seq<char> {
    seq!['"'] + escaped(v) + seq!['"']
}

/// One `"key":"value"` member.
pub open spec fn member_text(key: Seq<char>, val: Seq<char>) -> Seq<char> {
    quoted(key) + seq![':'] + quoted(val)
}

/// The full framed record of a cookie, fields in the fixed written order.
pub open spec fn record_text(m: CookieModel) -> Seq<char> {
    seq!['{'] + member_text("access"@, m.access) + seq![','] + member_text("did"@, m.did)
        + seq![','] + member_text("refresh"@, m.refresh) + seq!['}']
}

/// The text that [`SessionCookie::encode`] writes for a given model.
pub open spec fn encoded(m: CookieModel) -> Seq<char> {
    b64url_of(encode_utf8(record_text(m)))
}

// ---------------------------------------------------------------------------
// The framed text, parsed back: a front-consuming specification parser.
// ---------------------------------------------------------------------------

/// Consume one expected character.
pub open spec fn parse_exact(s: Seq<char>, c: char) -> Option<Seq<char>> {
    if s.len() > 0 && s[0] == c {
        Some(s.skip(1))
    } else {
        None
    }
}

/// Consume the inside of a quoted value up to and including the closing
/// quote, undoing the escapes.
pub open spec fn parse_string_body(s: Seq<char>) -> Option<(Seq<char>, Seq<char>)>
    decreases s.len(),
{
    if s.len() == 0 {
        None
    } else if s[0] == '"' {
        Some((Seq::empty(), s.skip(1)))
    } else if s[0] == '\\' {
        if s.len() >= 2 && (s[1] == '"' || s[1] == '\\') {
            match parse_string_body(s.skip(2)) {
                Some((v, r)) => Some((seq![s[1]] + v, r)),
                None => None,
            }
        } else {
            None
        }
    } else {
        match parse_string_body(s.skip(1)) {
            Some((v, r)) => Some((seq![s[0]] + v, r)),
            None => None,
        }
    }
}

/// Consume one quoted value.
pub open spec fn parse_quoted(s: Seq<char>) -> Option<(Seq<char>, Seq<char>)> {
    match parse_exact(s, '"') {
        Some(r) => parse_string_body(r),
        None => None,
    }
}

/// Consume one `"key":"value"` member.
pub open spec fn parse_member(s: Seq<char>) -> Option<((Seq<char>, Seq<char>), Seq<char>)> {
    match parse_quoted(s) {
        Some((key, r1)) => match parse_exact(r1, ':') {
            Some(r2) => match parse_quoted(r2) {
                Some((val, r3)) => Some(((key, val), r3)),
                None => None,
            },
            None => None,
        },
        None => None,
    }
}

/// The three field values as they are gathered, in any order, each at most
/// once.
#[verifier::ext_equal]
pub ghost struct FieldSlots {
    pub access: Option<Seq<char>>,
    pub did: Option<Seq<char>>,
    pub refresh: Option<Seq<char>>,
}

/// File one member under its key; an unknown or repeated key refuses the
/// record.
pub open spec fn slot_fill(slots: FieldSlots, key: Seq<char>, val: Seq<char>) -> Option<FieldSlots> {
    if key == "access"@ {
        if slots.access is Some {
            None
        } else {
            Some(FieldSlots { access: Some(val), ..slots })
        }
    } else if key == "did"@ {
        if slots.did is Some {
            None
        } else {
            Some(FieldSlots { did: Some(val), ..slots })
        }
    } else if key == "refresh"@ {
        if slots.refresh is Some {
            None
        } else {
            Some(FieldSlots { refresh: Some(val), ..slots })
        }
    } else {
        None
    }
}

/// Turn three gathered members into a model, if every field arrived.
pub open spec fn slots_model(slots: FieldSlots) -> Option<CookieModel> {
    match (slots.access, slots.did, slots.refresh) {
        (Some(a), Some(d), Some(r)) => Some(CookieModel { access: a, did: d, refresh: r }),
        _ => None,
    }
}

/// What a framed text means: a braced record of exactly three members
/// whose keys are the three field names in any order, nothing after the
/// closing brace.
pub open spec fn parse_record(s: Seq<char>) -> Option<CookieModel> {
    match parse_exact(s, '{') {
        None => None,
        Some(r0) => match parse_member(r0) {
            None => None,
            Some((kv1, r1)) => match parse_exact(r1, ',') {
                None => None,
                Some(r2) => match parse_member(r2) {
                    None => None,
                    Some((kv2, r3)) => match parse_exact(r3, ',') {
                        None => None,
                        Some(r4) => match parse_member(r4) {
                            None => None,
                            Some((kv3, r5)) => match parse_exact(r5, '}') {
                                None => None,
                                Some(r6) => if r6.len() == 0 {
                                    let none_yet = FieldSlots { access: None, did: None, refresh: None };
                                    match slot_fill(none_yet, kv1.0, kv1.1) {
                                        None => None,
                                        Some(s1) => match slot_fill(s1, kv2.0, kv2.1) {
                                            None => None,
                                            Some(s2) => match slot_fill(s2, kv3.0, kv3.1) {
                                                None => None,
                                                Some(s3) => slots_model(s3),
                                            },
                                        },
                                    }
                                } else {
                                    None
                                },
                            },
                        },
                    },
                },
            },
        },
    }
}

/// A persisted text stands for a model when some byte string both base64-
/// decodes out of it and carries a well-formed record for that model.
pub open spec fn decodes_to(s: Seq<char>, m: CookieModel) -> bool {
    exists|b: Seq<u8>|
        s == b64url_of(b) && valid_utf8(b) && parse_record(decode_utf8(b)) == Some(m)
}

/// A persisted text is well formed when it stands for some model.
pub open spec fn text_decodes(s: Seq<char>) -> bool {
    exists|m: CookieModel| decodes_to(s, m)
}

// ---------------------------------------------------------------------------
// Escaping and parsing invert each other.
// ---------------------------------------------------------------------------

proof fn lemma_escaped_append(a: Seq<char>, b: Seq<char>)
    ensures
        escaped(a + b) == escaped(a) + escaped(b),
    decreases a.len(),
{
    if a.len() == 0 {
        assert(a + b =~= b);
        assert(escaped(a) + escaped(b) =~= escaped(b));
    } else {
        lemma_escaped_append(a.skip(1), b);
        assert((a + b).skip(1) =~= a.skip(1) + b);
        assert((a + b)[0] == a[0]);
        assert(escape_char(a[0]) + (escaped(a.skip(1)) + escaped(b)) =~= (escape_char(a[0])
            + escaped(a.skip(1))) + escaped(b));
    }
}

proof fn lemma_escaped_one(c: char)
    ensures
        escaped(seq![c]) == escape_char(c),
{
    assert(seq![c].skip(1) =~= Seq::<char>::empty());
    assert(escaped(Seq::<char>::empty()) == Seq::<char>::empty());
    assert(seq![c].len() == 1);
    assert(escaped(seq![c]) == escape_char(seq![c][0]) + escaped(seq![c].skip(1)));
    assert(seq![c][0] == c);
    assert(escape_char(c) + Seq::<char>::empty() =~= escape_char(c));
}

/// Undoing the escapes recovers any value exactly: the quoted form of `v`
/// followed by anything parses back to `v` with that remainder untouched.
pub proof fn lemma_parse_escaped(v: Seq<char>, rest: Seq<char>)
    ensures
        parse_string_body(escaped(v) + seq!['"'] + rest) == Some((v, rest)),
    decreases v.len(),
{
    let s = escaped(v) + seq!['"'] + rest;
    if v.len() == 0 {
        assert(s =~= seq!['"'] + rest);
        assert(s[0] == '"');
        assert(s.skip(1) =~= rest);
        assert(v =~= Seq::<char>::empty());
    } else {
        let c = v[0];
        let tail = v.skip(1);
        lemma_parse_escaped(tail, rest);
        assert(escaped(v) == escape_char(c) + escaped(tail));
        if c == '"' || c == '\\' {
            assert(escape_char(c) =~= seq!['\\', c]);
            assert(s[0] == '\\');
            assert(s[1] == c);
            assert(s.len() >= 2);
            assert(s.skip(2) =~= escaped(tail) + seq!['"'] + rest);
            assert(seq![s[1]] + tail =~= v);
        } else {
            assert(escape_char(c) =~= seq![c]);
            assert(s[0] == c);
            assert(s.skip(1) =~= escaped(tail) + seq!['"'] + rest);
            assert(seq![s[0]] + tail =~= v);
        }
    }
}

/// One written member parses back to its key and value.
pub proof fn lemma_parse_member_text(k: Seq<char>, v: Seq<char>, rest: Seq<char>)
    ensures
        parse_member(member_text(k, v) + rest) == Some(((k, v), rest)),
{
    let s = member_text(k, v) + rest;
    let after_key = seq![':'] + quoted(v) + rest;
    assert(s[0] == '"');
    assert(s.skip(1) =~= escaped(k) + seq!['"'] + after_key);
    lemma_parse_escaped(k, after_key);
    assert(parse_quoted(s) == Some((k, after_key)));
    assert(after_key[0] == ':');
    assert(after_key.skip(1) =~= quoted(v) + rest);
    let r2 = after_key.skip(1);
    assert(r2[0] == '"');
    assert(r2.skip(1) =~= escaped(v) + seq!['"'] + rest);
    lemma_parse_escaped(v, rest);
    assert(parse_quoted(r2) == Some((v, rest)));
}

/// The written record of any model parses back to exactly that model.
/// This is the verified heart of the round trip: what `encode` frames,
/// `decode`'s parser recovers, field for field.
pub proof fn lemma_parse_record_text(m: CookieModel)
    ensures
        parse_record(record_text(m)) == Some(m),
{
    reveal_strlit("access");
    reveal_strlit("did");
    reveal_strlit("refresh");
    let s = record_text(m);
    let rest1 = seq![','] + member_text("did"@, m.did) + seq![','] + member_text(
        "refresh"@,
        m.refresh,
    ) + seq!['}'];
    let rest2 = seq![','] + member_text("refresh"@, m.refresh) + seq!['}'];
    let rest3 = seq!['}'];
    assert(s[0] == '{');
    assert(s.skip(1) =~= member_text("access"@, m.access) + rest1);
    lemma_parse_member_text("access"@, m.access, rest1);
    assert(rest1[0] == ',');
    assert(rest1.skip(1) =~= member_text("did"@, m.did) + rest2);
    lemma_parse_member_text("did"@, m.did, rest2);
    assert(rest2[0] == ',');
    assert(rest2.skip(1) =~= member_text("refresh"@, m.refresh) + rest3);
    lemma_parse_member_text("refresh"@, m.refresh, rest3);
    assert(rest3[0] == '}');
    assert(rest3.skip(1) =~= Seq::<char>::empty());
    assert("access"@.len() == 6);
    assert("did"@.len() == 3);
    assert("refresh"@.len() == 7);
    assert("access"@ != "did"@);
    assert("access"@ != "refresh"@);
    assert("did"@ != "refresh"@);
    let none_yet = FieldSlots { access: None, did: None, refresh: None };
    let s1 = FieldSlots { access: Some(m.access), did: None, refresh: None };
    let s2 = FieldSlots { access: Some(m.access), did: Some(m.did), refresh: None };
    let s3 = FieldSlots { access: Some(m.access), did: Some(m.did), refresh: Some(m.refresh) };
    assert(slot_fill(none_yet, "access"@, m.access) == Some(s1));
    assert(slot_fill(s1, "did"@, m.did) == Some(s2));
    assert(slot_fill(s2, "refresh"@, m.refresh) == Some(s3));
    assert(slots_model(s3) == Some(CookieModel { access: m.access, did: m.did, refresh: m.refresh }));
    assert(CookieModel { access: m.access, did: m.did, refresh: m.refresh } =~= m);
}

/// What `encode` writes always stands for the cookie it was written from.
pub proof fn lemma_encoded_decodes(m: CookieModel)
    ensures
        decodes_to(encoded(m), m),
{
    let b = encode_utf8(record_text(m));
    encode_utf8_valid_utf8(record_text(m));
    encode_utf8_decode_utf8(record_text(m));
    lemma_parse_record_text(m);
    assert(encoded(m) == b64url_of(b) && valid_utf8(b) && parse_record(decode_utf8(b)) == Some(m));
}

// ---------------------------------------------------------------------------
// Writing the framed text.
// ---------------------------------------------------------------------------

fn push_escaped(out: &mut Vec<char>, v: &Vec<char>)
    ensures
        final(out)@ == old(out)@ + escaped(v@),
{
    let ghost base = out@;
    let mut i: usize = 0;
    while i < v.len()
        invariant
            i <= v@.len(),
            out@ == base + escaped(v@.take(i as int)),
        decreases v@.len() - i,
    {
        let c = v[i];
        proof {
            assert(v@.take(i as int + 1) =~= v@.take(i as int) + seq![v@[i as int]]);
            lemma_escaped_append(v@.take(i as int), seq![v@[i as int]]);
            lemma_escaped_one(v@[i as int]);
        }
        if c == '"' || c == '\\' {
            out.push('\\');
            out.push(c);
            proof {
                assert((base + escaped(v@.take(i as int))) + seq!['\\'] + seq![c] =~= base + (
                escaped(v@.take(i as int)) + escape_char(v@[i as int])));
            }
        } else {
            out.push(c);
            proof {
                assert((base + escaped(v@.take(i as int))) + seq![c] =~= base + (escaped(
                    v@.take(i as int),
                ) + escape_char(v@[i as int])));
            }
        }
        i = i + 1;
    }
    proof {
        assert(v@.take(v@.len() as int) =~= v@);
    }
}

fn push_quoted(out: &mut Vec<char>, v: &Vec<char>)
    ensures
        final(out)@ == old(out)@ + quoted(v@),
{
    let ghost base = out@;
    out.push('"');
    push_escaped(out, v);
    out.push('"');
    proof {
        assert(((base + seq!['"']) + escaped(v@)) + seq!['"'] =~= base + quoted(v@));
    }
}

fn push_member(out: &mut Vec<char>, key: &Vec<char>, val: &Vec<char>)
    ensures
        final(out)@ == old(out)@ + member_text(key@, val@),
{
    let ghost base = out@;
    push_quoted(out, key);
    out.push(':');
    push_quoted(out, val);
    proof {
        assert(((base + quoted(key@)) + seq![':']) + quoted(val@) =~= base + member_text(
            key@,
            val@,
        ));
    }
}

// ---------------------------------------------------------------------------
// Reading the framed text back.
// ---------------------------------------------------------------------------

/// Character-for-character comparison of two buffers.
fn chars_eq(a: &Vec<char>, b: &Vec<char>) -> (r: bool)
    ensures
        r == (a@ == b@),
{
    if a.len() != b.len() {
        return false;
    }
    let mut i: usize = 0;
    while i < a.len()
        invariant
            a@.len() == b@.len(),
            i <= a@.len(),
            forall|j: int| 0 <= j < i ==> a@[j] == b@[j],
        decreases a@.len() - i,
    {
        if a[i] != b[i] {
            return false;
        }
        i = i + 1;
    }
    proof {
        assert(a@ =~= b@);
    }
    true
}

/// Consume one expected character at position `i`.
fn scan_exact(v: &Vec<char>, i: usize, c: char) -> (r: Option<usize>)
    requires
        i <= v@.len(),
    ensures
        match r {
            Some(j) => j <= v@.len() && parse_exact(v@.skip(i as int), c) == Some(
                v@.skip(j as int),
            ),
            None => parse_exact(v@.skip(i as int), c) is None,
        },
{
    if i < v.len() {
        proof {
            assert(v@.skip(i as int)[0] == v@[i as int]);
        }
        if v[i] == c {
            proof {
                assert(v@.skip(i as int).skip(1) =~= v@.skip(i as int + 1));
            }
            Some(i + 1)
        } else {
            None
        }
    } else {
        proof {
            assert(v@.skip(i as int).len() == 0);
        }
        None
    }
}

/// Consume one quoted value starting at position `i`, undoing the escapes.
fn scan_quoted(v: &Vec<char>, i: usize) -> (r: Option<(Vec<char>, usize)>)
    requires
        i <= v@.len(),
    ensures
        match r {
            Some((s, j)) => j <= v@.len() && parse_quoted(v@.skip(i as int)) == Some(
                (s@, v@.skip(j as int)),
            ),
            None => parse_quoted(v@.skip(i as int)) is None,
        },
{
    if !(i < v.len()) {
        proof {
            assert(v@.skip(i as int).len() == 0);
        }
        return None;
    }
    proof {
        assert(v@.skip(i as int)[0] == v@[i as int]);
    }
    if v[i] != '"' {
        return None;
    }
    proof {
        assert(v@.skip(i as int).skip(1) =~= v@.skip(i as int + 1));
    }
    let mut acc: Vec<char> = Vec::new();
    let mut cur: usize = i + 1;
    loop
        invariant
            i + 1 <= cur <= v@.len(),
            parse_exact(v@.skip(i as int), '"') == Some(v@.skip(i as int + 1)),
            parse_string_body(v@.skip(i as int + 1)) == (match parse_string_body(
                v@.skip(cur as int),
            ) {
                Some((w, rem)) => Some((acc@ + w, rem)),
                None => None::<(Seq<char>, Seq<char>)>,
            }),
        decreases v@.len() - cur,
    {
        if cur >= v.len() {
            proof {
                assert(v@.skip(cur as int).len() == 0);
            }
            return None;
        }
        let c = v[cur];
        proof {
            assert(v@.skip(cur as int)[0] == v@[cur as int]);
            assert(v@.skip(cur as int).len() == v@.len() - cur);
        }
        if c == '"' {
            proof {
                assert(v@.skip(cur as int).skip(1) =~= v@.skip(cur as int + 1));
                assert(acc@ + Seq::<char>::empty() =~= acc@);
            }
            return Some((acc, cur + 1));
        } else if c == '\\' {
            if cur + 1 < v.len() {
                let c2 = v[cur + 1];
                proof {
                    assert(v@.skip(cur as int)[1] == v@[cur as int + 1]);
                }
                if c2 == '"' || c2 == '\\' {
                    proof {
                        assert(v@.skip(cur as int).skip(2) =~= v@.skip(cur as int + 2));
                    }
                    let ghost acc_old = acc@;
                    acc.push(c2);
                    cur = cur + 2;
                    proof {
                        match parse_string_body(v@.skip(cur as int)) {
                            Some(p) => {
                                assert(acc_old + (seq![c2] + p.0) =~= acc@ + p.0);
                            },
                            None => {},
                        }
                    }
                } else {
                    return None;
                }
            } else {
                return None;
            }
        } else {
            proof {
                assert(v@.skip(cur as int).skip(1) =~= v@.skip(cur as int + 1));
            }
            let ghost acc_old = acc@;
            acc.push(c);
            cur = cur + 1;
            proof {
                match parse_string_body(v@.skip(cur as int)) {
                    Some(p) => {
                        assert(acc_old + (seq![c] + p.0) =~= acc@ + p.0);
                    },
                    None => {},
                }
            }
        }
    }
}

/// Consume one `"key":"value"` member starting at position `i`.
fn scan_member(v: &Vec<char>, i: usize) -> (r: Option<((Vec<char>, Vec<char>), usize)>)
    requires
        i <= v@.len(),
    ensures
        match r {
            Some(((k, w), j)) => j <= v@.len() && parse_member(v@.skip(i as int)) == Some(
                ((k@, w@), v@.skip(j as int)),
            ),
            None => parse_member(v@.skip(i as int)) is None,
        },
{
    let (k, j1) = match scan_quoted(v, i) {
        Some(p) => p,
        None => {
            return None;
        },
    };
    let j2 = match scan_exact(v, j1, ':') {
        Some(j) => j,
        None => {
            return None;
        },
    };
    let (w, j3) = match scan_quoted(v, j2) {
        Some(p) => p,
        None => {
            return None;
        },
    };
    Some(((k, w), j3))
}

/// The model of a gathered value: the characters, if one arrived.
spec fn slot_view(o: Option<Vec<char>>) -> Option<Seq<char>> {
    match o {
        Some(x) => Some(x@),
        None => None,
    }
}

/// The three field values as they arrive while the record is read.
struct Gather {
    access: Option<Vec<char>>,
    did: Option<Vec<char>>,
    refresh: Option<Vec<char>>,
}

impl View for Gather {
    type V = FieldSlots;

    closed spec fn view(&self) -> FieldSlots {
        FieldSlots {
            access: slot_view(self.access),
            did: slot_view(self.did),
            refresh: slot_view(self.refresh),
        }
    }
}

impl Gather {
    /// File one member under its key, refusing unknown and repeated keys,
    /// exactly as [`slot_fill`] says.
    fn fill(&mut self, ka: &Vec<char>, kd: &Vec<char>, kr: &Vec<char>, k: Vec<char>, w: Vec<char>)
        -> (ok: bool)
        requires
            ka@ == "access"@,
            kd@ == "did"@,
            kr@ == "refresh"@,
        ensures
            ok == (slot_fill(old(self)@, k@, w@) is Some),
            ok ==> Some(final(self)@) == slot_fill(old(self)@, k@, w@),
    {
        if chars_eq(&k, ka) {
            if self.access.is_some() {
                false
            } else {
                self.access = Some(w);
                true
            }
        } else if chars_eq(&k, kd) {
            if self.did.is_some() {
                false
            } else {
                self.did = Some(w);
                true
            }
        } else if chars_eq(&k, kr) {
            if self.refresh.is_some() {
                false
            } else {
                self.refresh = Some(w);
                true
            }
        } else {
            false
        }
    }
}

/// Read a whole framed record.
fn scan_record(v: &Vec<char>) -> (r: Option<SessionCookie>)
    ensures
        match r {
            Some(c) => parse_record(v@) == Some(c@),
            None => parse_record(v@) is None,
        },
{
    proof {
        assert(v@.skip(0) =~= v@);
    }
    let j0 = match scan_exact(v, 0, '{') {
        Some(j) => j,
        None => {
            return None;
        },
    };
    let (kv1, j1) = match scan_member(v, j0) {
        Some(p) => p,
        None => {
            return None;
        },
    };
    let j2 = match scan_exact(v, j1, ',') {
        Some(j) => j,
        None => {
            return None;
        },
    };
    let (kv2, j3) = match scan_member(v, j2) {
        Some(p) => p,
        None => {
            return None;
        },
    };
    let j4 = match scan_exact(v, j3, ',') {
        Some(j) => j,
        None => {
            return None;
        },
    };
    let (kv3, j5) = match scan_member(v, j4) {
        Some(p) => p,
        None => {
            return None;
        },
    };
    let j6 = match scan_exact(v, j5, '}') {
        Some(j) => j,
        None => {
            return None;
        },
    };
    if j6 < v.len() {
        proof {
            assert(v@.skip(j6 as int).len() > 0);
        }
        return None;
    }
    proof {
        assert(v@.skip(j6 as int).len() == 0);
    }
    let ka = str_chars("access");
    let kd = str_chars("did");
    let kr = str_chars("refresh");
    let mut g = Gather { access: None, did: None, refresh: None };
    proof {
        assert(g@ =~= FieldSlots { access: None, did: None, refresh: None });
    }
    let (k1, w1) = kv1;
    if !g.fill(&ka, &kd, &kr, k1, w1) {
        return None;
    }
    let (k2, w2) = kv2;
    if !g.fill(&ka, &kd, &kr, k2, w2) {
        return None;
    }
    let (k3, w3) = kv3;
    if !g.fill(&ka, &kd, &kr, k3, w3) {
        return None;
    }
    match (g.access, g.did, g.refresh) {
        (Some(a), Some(d), Some(rf)) => {
            let c = SessionCookie {
                access: chars_to_string(&a),
                did: chars_to_string(&d),
                refresh: chars_to_string(&rf),
            };
            proof {
                assert(c@ =~= CookieModel { access: a@, did: d@, refresh: rf@ });
            }
            Some(c)
        },
        _ => None,
    }
}

// ---------------------------------------------------------------------------
// The codec itself.
// ---------------------------------------------------------------------------

impl SessionCookie {
    /// Serialize the record and apply the base64 transform.  Never fails:
    /// every cookie has a written form, and [`decode`](Self::decode) takes
    /// it back to the same three fields.
    pub fn encode(&self) -> (r: String)
        ensures
            r@ == encoded(self@),
    {
        let ka = str_chars("access");
        let kd = str_chars("did");
        let kr = str_chars("refresh");
        let va = str_chars(self.access.as_str());
        let vd = str_chars(self.did.as_str());
        let vr = str_chars(self.refresh.as_str());
        let mut t: Vec<char> = Vec::new();
        t.push('{');
        push_member(&mut t, &ka, &va);
        t.push(',');
        push_member(&mut t, &kd, &vd);
        t.push(',');
        push_member(&mut t, &kr, &vr);
        t.push('}');
        proof {
            assert(t@ =~= record_text(self@));
        }
        let js = chars_to_string(&t);
        let bytes = js.as_str().as_bytes_vec();
        b64_encode(&bytes)
    }

    /// Invert [`encode`](Self::encode).  Succeeds exactly on the texts that
    /// stand for some cookie, and on `encode`'s own output returns the
    /// cookie that was encoded.
    pub fn decode(s: &str) -> (r: Result<SessionCookie, DecodeError>)
        ensures
            r matches Ok(c) ==> decodes_to(s@, c@),
            r matches Ok(c) ==> forall|m: CookieModel| decodes_to(s@, m) ==> m =~= c@,
            r is Err ==> !text_decodes(s@),
            forall|m: CookieModel| s@ == encoded(m) ==> (r matches Ok(c) && c@ =~= m),
    {
        let bytes = match b64_decode(s) {
            Some(b) => b,
            None => {
                proof {
                    assert forall|m: CookieModel| !decodes_to(s@, m) by {
                        if decodes_to(s@, m) {
                            let b = choose|b: Seq<u8>|
                                s@ == b64url_of(b) && valid_utf8(b) && parse_record(
                                    decode_utf8(b),
                                ) == Some(m);
                        }
                    }
                    assert forall|m: CookieModel| s@ != encoded(m) by {
                        assert(encoded(m) == b64url_of(encode_utf8(record_text(m))));
                    }
                    assert(!text_decodes(s@));
                }
                return Err(DecodeError::Base64);
            },
        };
        let ghost bs = bytes@;
        let js = match utf8_to_string(bytes) {
            Some(x) => x,
            None => {
                proof {
                    assert forall|m: CookieModel| !decodes_to(s@, m) by {
                        if decodes_to(s@, m) {
                            let b = choose|b: Seq<u8>|
                                s@ == b64url_of(b) && valid_utf8(b) && parse_record(
                                    decode_utf8(b),
                                ) == Some(m);
                            assert(b == bs);
                        }
                    }
                    assert forall|m: CookieModel| s@ != encoded(m) by {
                        if s@ == encoded(m) {
                            encode_utf8_valid_utf8(record_text(m));
                            assert(encode_utf8(record_text(m)) == bs);
                        }
                    }
                    assert(!text_decodes(s@));
                }
                return Err(DecodeError::Utf8);
            },
        };
        let chars = str_chars(js.as_str());
        match scan_record(&chars) {
            Some(c) => {
                proof {
                    assert(decodes_to(s@, c@)) by {
                        assert(s@ == b64url_of(bs) && valid_utf8(bs) && parse_record(
                            decode_utf8(bs),
                        ) == Some(c@));
                    }
                    assert forall|m: CookieModel| decodes_to(s@, m) implies m =~= c@ by {
                        let b = choose|b: Seq<u8>|
                            s@ == b64url_of(b) && valid_utf8(b) && parse_record(decode_utf8(b))
                                == Some(m);
                        assert(b == bs);
                    }
                    assert forall|m: CookieModel| s@ == encoded(m) implies c@ =~= m by {
                        encode_utf8_valid_utf8(record_text(m));
                        encode_utf8_decode_utf8(record_text(m));
                        assert(encode_utf8(record_text(m)) == bs);
                        lemma_parse_record_text(m);
                    }
                }
                Ok(c)
            },
            None => {
                proof {
                    assert forall|m: CookieModel| !decodes_to(s@, m) by {
                        if decodes_to(s@, m) {
                            let b = choose|b: Seq<u8>|
                                s@ == b64url_of(b) && valid_utf8(b) && parse_record(
                                    decode_utf8(b),
                                ) == Some(m);
                            assert(b == bs);
                        }
                    }
                    assert forall|m: CookieModel| s@ != encoded(m) by {
                        if s@ == encoded(m) {
                            encode_utf8_valid_utf8(record_text(m));
                            encode_utf8_decode_utf8(record_text(m));
                            assert(encode_utf8(record_text(m)) == bs);
                            lemma_parse_record_text(m);
                        }
                    }
                    assert(!text_decodes(s@));
                }
                Err(DecodeError::Payload)
            },
        }
    }
}

} // verus!
