use vstd::prelude::*;

use base64::Engine;

use crate::text::push_char;

verus! {

/// Standard base64 (RFC 4648, with `=` padding) of a byte sequence, as the
/// ASCII bytes of the encoded text; computed by the base64 crate.
pub uninterp spec fn b64_of(b: Seq<u8>) -> Seq<u8>;

/// The encoded text of `b` as characters.
pub open spec fn b64_chars_of(b: Seq<u8>) -> Seq<char> {
    b64_of(b).map_values(|x: u8| x as char)
}

/// A byte of the standard base64 alphabet, or the padding byte `=`.
pub open spec fn is_b64_byte(x: u8) -> bool {
    ||| x == 43  // '+'
    ||| x == 47  // '/'
    ||| x == 61  // '='
    ||| 65 <= x <= 90  // 'A'..'Z'
    ||| 97 <= x <= 122  // 'a'..'z'
    ||| 48 <= x <= 57  // '0'..'9'
}

/// Text made of base64 alphabet bytes only.
pub open spec fn b64_text(t: Seq<u8>) -> bool {
    forall|i: int| 0 <= i < t.len() ==> is_b64_byte(#[trigger] t[i])
}

/// A character of the standard base64 alphabet, or the padding sign `=`.
pub open spec fn is_b64_std_char(c: char) -> bool {
    ||| c == '+'
    ||| c == '/'
    ||| c == '='
    ||| 'A' <= c <= 'Z'
    ||| 'a' <= c <= 'z'
    ||| '0' <= c <= '9'
}

/// Relies on `base64::engine::general_purpose::STANDARD` encoding: standard
/// alphabet with `=` padding, four output bytes for every three input bytes.
#[verifier::external_body]
pub(crate) fn b64_encode(b: &[u8]) -> (r: String)
    ensures
        r@ == b64_chars_of(b@),
        r@.len() == 4 * ((b@.len() + 2) / 3),
        r@.len() == b64_of(b@).len(),
        r@ == b64_chars_of(b@) ==> b64_text(b64_of(b@)),
{
    base64::engine::general_purpose::STANDARD.encode(b)
}

/// Relies on `base64::engine::general_purpose::STANDARD` decoding: it is
/// strict (canonical padding required, no trailing bits, no foreign bytes),
/// so it succeeds exactly on encoder output and inverts it.
#[verifier::external_body]
pub(crate) fn b64_decode(s: &str) -> (r: Option<Vec<u8>>)
    ensures
        r matches Some(b) ==> s@ == b64_chars_of(b@),
        r is None ==> forall|b: Seq<u8>| s@ != b64_chars_of(b),
        r matches Some(v) ==> forall|b: Seq<u8>| s@ == b64_chars_of(b) ==> v@ == b,
{
    base64::engine::general_purpose::STANDARD.decode(s.as_bytes()).ok()
}

/// Base64 text is ASCII, and as characters it stays inside the base64
/// alphabet.
pub proof fn lemma_b64_text_shape(b: Seq<u8>)
    requires
        b64_text(b64_of(b)),
    ensures
        vstd::utf8::is_ascii_chars(b64_chars_of(b)),
        forall|i: int| 0 <= i < b64_chars_of(b).len() ==> is_b64_std_char(#[trigger] b64_chars_of(b)[i]),
{
    assert forall|i: int| 0 <= i < b64_chars_of(b).len() implies is_b64_std_char(
        #[trigger] b64_chars_of(b)[i],
    ) && '\0' <= b64_chars_of(b)[i] <= '\u{7f}' by {
        assert(is_b64_byte(b64_of(b)[i]));
        assert(b64_chars_of(b)[i] == b64_of(b)[i] as char);
    }
}

/// The UTF-8 bytes of base64 text are the alphabet bytes themselves.
pub proof fn lemma_b64_text_bytes(b: Seq<u8>)
    requires
        b64_text(b64_of(b)),
    ensures
        vstd::utf8::encode_utf8(b64_chars_of(b)) == b64_of(b),
{
    lemma_b64_text_shape(b);
    vstd::utf8::is_ascii_chars_encode_utf8(b64_chars_of(b));
    assert(vstd::utf8::encode_utf8(b64_chars_of(b)) =~= b64_of(b)) by {
        assert forall|i: int| 0 <= i < b64_of(b).len() implies vstd::utf8::encode_utf8(
            b64_chars_of(b),
        )[i] == b64_of(b)[i] by {
            assert(b64_chars_of(b)[i] == b64_of(b)[i] as char);
        }
    }
}

/// Bytes whose characters read as base64 text are that text.
pub proof fn lemma_bytes_of_b64_chars(t: Seq<u8>, b: Seq<u8>)
    requires
        t.map_values(|x: u8| x as char) == b64_chars_of(b),
    ensures
        t == b64_of(b),
{
    assert(t.len() == t.map_values(|x: u8| x as char).len());
    assert(b64_chars_of(b).len() == b64_of(b).len());
    assert(t =~= b64_of(b)) by {
        assert forall|i: int| 0 <= i < t.len() implies t[i] == b64_of(b)[i] by {
            assert(t.map_values(|x: u8| x as char)[i] == t[i] as char);
            assert(b64_chars_of(b)[i] == b64_of(b)[i] as char);
            assert((t[i] as char) == (b64_of(b)[i] as char));
            assert(t[i] as char as u8 == t[i]);
            assert(b64_of(b)[i] as char as u8 == b64_of(b)[i]);
        }
    }
}

/// The character translation of the URL-safe encoding.
pub open spec fn url_enc_char(c: char) -> char {
    if c == '+' {
        '-'
    } else if c == '/' {
        '_'
    } else {
        c
    }
}

/// Base64 text translated to its URL-safe form.
pub open spec fn url_enc_chars(s: Seq<char>) -> Seq<char> {
    s.map_values(|c: char| url_enc_char(c))
}

/// The character translation of the URL-safe decoding.
pub open spec fn url_dec_char(c: char) -> char {
    if c == '-' {
        '+'
    } else if c == '_' {
        '/'
    } else {
        c
    }
}

/// URL-safe text translated back to standard base64 text: backslashes that
/// shell escaping may have inserted are dropped, `-` and `_` are mapped back.
pub open spec fn url_dec_chars(s: Seq<char>) -> Seq<char>
    decreases s.len(),
{
    if s.len() == 0 {
        Seq::empty()
    } else if s.last() == '\\' {
        url_dec_chars(s.drop_last())
    } else {
        url_dec_chars(s.drop_last()).push(url_dec_char(s.last()))
    }
}

/// Turns standard base64 text into its URL-safe form: `+` becomes `-` and
/// `/` becomes `_`, so that the text can sit in a URL fragment.
pub fn b64_url_enc(b64str: &str) -> (r: String)
    ensures
        r@ == url_enc_chars(b64str@),
{
    let n = b64str.unicode_len();
    let mut r = String::new();
    let mut i: usize = 0;
    while i < n
        invariant
            n == b64str@.len(),
            i <= n,
            r@ == url_enc_chars(b64str@.take(i as int)),
        decreases n - i,
    {
        let c = b64str.get_char(i);
        let mapped = if c == '+' {
            '-'
        } else if c == '/' {
            '_'
        } else {
            c
        };
        push_char(&mut r, mapped);
        proof {
            assert(url_enc_chars(b64str@.take(i + 1)) =~= url_enc_chars(b64str@.take(i as int)).push(
                url_enc_char(b64str@[i as int]),
            ));
        }
        i = i + 1;
    }
    proof {
        assert(b64str@.take(n as int) =~= b64str@);
    }
    r
}

/// Turns URL-safe base64 text back into standard base64 text: `-` becomes
/// `+`, `_` becomes `/`, and backslashes are stripped.
pub fn b64_url_dec(b64str: &str) -> (r: String)
    ensures
        r@ == url_dec_chars(b64str@),
{
    let n = b64str.unicode_len();
    let mut r = String::new();
    let mut i: usize = 0;
    while i < n
        invariant
            n == b64str@.len(),
            i <= n,
            r@ == url_dec_chars(b64str@.take(i as int)),
        decreases n - i,
    {
        let c = b64str.get_char(i);
        proof {
            assert(b64str@.take(i + 1).drop_last() =~= b64str@.take(i as int));
            assert(b64str@.take(i + 1).last() == b64str@[i as int]);
        }
        if c != '\\' {
            let mapped = if c == '-' {
                '+'
            } else if c == '_' {
                '/'
            } else {
                c
            };
            push_char(&mut r, mapped);
        }
        i = i + 1;
    }
    proof {
        assert(b64str@.take(n as int) =~= b64str@);
    }
    r
}

/// The URL-safe translation is reversible: on text free of `-`, `_` and
/// backslashes -- standard base64 text in particular -- decoding undoes
/// encoding exactly.
pub proof fn lemma_url_codec_round_trip(s: Seq<char>)
    requires
        forall|i: int| 0 <= i < s.len() ==> s[i] != '-' && s[i] != '_' && s[i] != '\\',
    ensures
        url_dec_chars(url_enc_chars(s)) == s,
    decreases s.len(),
{
    if s.len() == 0 {
        assert(url_enc_chars(s) =~= Seq::<char>::empty());
        assert(url_dec_chars(url_enc_chars(s)) =~= s);
    } else {
        lemma_url_codec_round_trip(s.drop_last());
        assert(url_enc_chars(s).drop_last() =~= url_enc_chars(s.drop_last()));
        assert(url_enc_chars(s).last() == url_enc_char(s.last()));
        assert(url_dec_char(url_enc_char(s.last())) == s.last());
        assert(url_dec_chars(url_enc_chars(s)) =~= s);
    }
}

} // verus!
