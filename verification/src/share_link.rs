use vstd::prelude::*;

use crate::codec::{b64_url_dec, b64_url_enc, is_b64_std_char, url_dec_chars, url_enc_chars};
use crate::errors::SecretError;
use crate::text::push_char;

verus! {

/// What the url crate extracts from an absolute URL: scheme plus authority
/// (without a trailing slash), the path, and the fragment if one is there;
/// nothing for text that does not parse as a hierarchical URL.
pub uninterp spec fn url_parts_of(s: Seq<char>) -> Option<(Seq<char>, Seq<char>, Option<Seq<char>>)>;

/// The pieces of a share URL as the url crate splits them.
#[derive(Debug)]
pub struct UrlComponents {
    /// Scheme and authority, `https://host`, without a trailing slash.
    pub base: String,
    /// The path, beginning with `/` on every hierarchical URL.
    pub path: String,
    /// The fragment, without its `#`, if the URL has one.
    pub fragment: Option<String>,
}

/// Relies on `url::Url::parse` and its accessors `fragment`, `path` and the
/// slice up to `Position::BeforePath`: splits an absolute hierarchical URL
/// into scheme-plus-authority, path and fragment; `None` when the text does
/// not parse or the URL cannot be a base.
#[verifier::external_body]
fn url_components(url: &str) -> (r: Option<UrlComponents>)
    ensures
        r is Some <==> url_parts_of(url@) is Some,
        r matches Some(c) ==> (url_parts_of(url@) matches Some(t) && c.base@ == t.0 && c.path@
            == t.1 && (c.fragment matches Some(f) ==> t.2 matches Some(g) && f@ == g) && (
        c.fragment is None <==> t.2 is None)),
{
    let u = match url::Url::parse(url) {
        Ok(u) => u,
        Err(_) => return None,
    };
    if u.cannot_be_a_base() {
        return None;
    }
    Some(
        UrlComponents {
            base: u[..url::Position::BeforePath].to_string(),
            path: u.path().to_string(),
            fragment: u.fragment().map(|f| f.to_string()),
        },
    )
}

/// A fragment of exactly two `&`-separated parts: `s` is `a&b` and neither
/// part holds a further `&`.
pub open spec fn is_two_part_fragment(s: Seq<char>, a: Seq<char>, b: Seq<char>) -> bool {
    &&& s == a + seq!['&'] + b
    &&& forall|i: int| 0 <= i < a.len() ==> a[i] != '&'
    &&& forall|i: int| 0 <= i < b.len() ==> b[i] != '&'
}

/// In a two-part fragment the separator is the only `&`.
proof fn lemma_two_part_amp_at(s: Seq<char>, a: Seq<char>, b: Seq<char>, i: int)
    requires
        is_two_part_fragment(s, a, b),
        0 <= i < s.len(),
    ensures
        s[i] == '&' <==> i == a.len(),
{
    if i < a.len() {
        assert(s[i] == a[i]);
    } else if i == a.len() {
        assert(s[i] == '&');
    } else {
        assert(s[i] == b[i - a.len() - 1]);
    }
}

/// A fragment splits into two parts in at most one way.
pub proof fn lemma_two_part_unique(
    s: Seq<char>,
    a: Seq<char>,
    b: Seq<char>,
    a2: Seq<char>,
    b2: Seq<char>,
)
    requires
        is_two_part_fragment(s, a, b),
        is_two_part_fragment(s, a2, b2),
    ensures
        a == a2,
        b == b2,
{
    assert(s.len() == a.len() + 1 + b.len());
    assert(s.len() == a2.len() + 1 + b2.len());
    assert(s[a.len() as int] == '&');
    lemma_two_part_amp_at(s, a2, b2, a.len() as int);
    assert(a.len() == a2.len());
    assert(a =~= a2) by {
        assert forall|i: int| 0 <= i < a.len() implies a[i] == a2[i] by {
            assert(a[i] == s[i]);
            assert(a2[i] == s[i]);
        }
    }
    assert(b =~= b2) by {
        assert forall|i: int| 0 <= i < b.len() implies b[i] == b2[i] by {
            assert(b[i] == s[a.len() + 1 + i]);
            assert(b2[i] == s[a2.len() + 1 + i]);
        }
    }
}

/// Splits a fragment on `&` into its exactly two parts; `None` when the
/// count of parts is not two.
fn split_fragment(s: &str) -> (r: Option<(String, String)>)
    ensures
        r matches Some(p) ==> is_two_part_fragment(s@, p.0@, p.1@),
        r is None ==> forall|a: Seq<char>, b: Seq<char>| !is_two_part_fragment(s@, a, b),
{
    let n = s.unicode_len();
    let mut i: usize = 0;
    let mut count: usize = 0;
    let mut pos: usize = 0;
    while i < n
        invariant
            n == s@.len(),
            i <= n,
            count == 0 ==> forall|j: int| 0 <= j < i ==> s@[j] != '&',
            count >= 1 ==> pos < i && s@[pos as int] == '&' && (forall|j: int|
                0 <= j < pos ==> s@[j] != '&'),
            count == 1 ==> forall|j: int| 0 <= j < i && j != pos ==> s@[j] != '&',
            count >= 2 ==> exists|j: int| pos < j < i && s@[j] == '&',
        decreases n - i,
    {
        let c = s.get_char(i);
        if c == '&' {
            if count == 0 {
                pos = i;
            }
            if count < 2 {
                count = count + 1;
            }
        }
        i = i + 1;
    }
    if count == 0 {
        proof {
            assert forall|a: Seq<char>, b: Seq<char>| !is_two_part_fragment(s@, a, b) by {
                if is_two_part_fragment(s@, a, b) {
                    assert(s@[a.len() as int] == '&');
                }
            }
        }
        return None;
    }
    if count >= 2 {
        proof {
            let j2 = choose|j: int| pos < j < n && s@[j] == '&';
            assert forall|a: Seq<char>, b: Seq<char>| !is_two_part_fragment(s@, a, b) by {
                if is_two_part_fragment(s@, a, b) {
                    lemma_two_part_amp_at(s@, a, b, pos as int);
                    lemma_two_part_amp_at(s@, a, b, j2);
                }
            }
        }
        return None;
    }
    let a = s.substring_char(0, pos);
    let b = s.substring_char(pos + 1, n);
    proof {
        assert(s@ =~= a@ + seq!['&'] + b@);
        assert forall|j: int| 0 <= j < a@.len() implies a@[j] != '&' by {
            assert(a@[j] == s@[j]);
        }
        assert forall|j: int| 0 <= j < b@.len() implies b@[j] != '&' by {
            assert(b@[j] == s@[pos + 1 + j]);
        }
    }
    Some((a.to_owned(), b.to_owned()))
}

/// The path with one trailing slash, if it has one, removed.
pub open spec fn trim_trailing_slash(p: Seq<char>) -> Seq<char> {
    if p.len() > 0 && p.last() == '/' {
        p.drop_last()
    } else {
        p
    }
}

/// The canonical bin lookup URL: the URL's base joined with its trimmed
/// path, query and fragment dropped.
pub open spec fn bin_lookup_url(base: Seq<char>, path: Seq<char>) -> Seq<char> {
    if trim_trailing_slash(path).len() == 0 {
        base + seq!['/']
    } else {
        base + trim_trailing_slash(path)
    }
}

/// Joins a base with a trimmed path into the bin lookup URL.
fn lookup_from(base: &str, path: &str) -> (r: String)
    ensures
        r@ == bin_lookup_url(base@, path@),
{
    let n = path.unicode_len();
    let mut out = String::new();
    out.append(base);
    let trimmed: &str = if n > 0 && path.get_char(n - 1) == '/' {
        path.substring_char(0, n - 1)
    } else {
        path
    };
    proof {
        if n > 0 && path@.last() == '/' {
            assert(trimmed@ =~= trim_trailing_slash(path@));
        }
    }
    if trimmed.unicode_len() == 0 {
        push_char(&mut out, '/');
    } else {
        out.append(trimmed);
    }
    proof {
        if trim_trailing_slash(path@).len() == 0 {
            assert(out@ =~= bin_lookup_url(base@, path@));
        }
    }
    out
}

/// A share URL taken apart: the two URL-safe fragment parts turned back
/// into standard base64 text, the URL's path, and the bin lookup URL.
#[derive(Debug)]
pub struct ParsedUrl {
    /// Standard base64 text of the key, after URL-safe decoding.
    pub key: String,
    /// Standard base64 text of the nonce, after URL-safe decoding.
    pub nonce: String,
    /// The path of the share URL.
    pub path: String,
    /// The URL under which the bin store serves this secret.
    pub bin_url: String,
}

/// Takes a share URL apart. The fragment must split on `&` into exactly a
/// key part and a nonce part; each is URL-safe-decoded back to standard
/// base64 text. The bin lookup URL is the URL's base joined with the path,
/// query and fragment dropped and one trailing slash trimmed. Every failure
/// -- text that does not parse as a hierarchical URL, a missing fragment,
/// or a fragment of the wrong shape -- is a fatal `ParseError`.
pub fn parse_decrypt_url(url: &str) -> (r: Result<ParsedUrl, SecretError>)
    ensures
        r matches Ok(p) ==> (url_parts_of(url@) matches Some(t) && (t.2 matches Some(frag)
            && (exists|a: Seq<char>, b: Seq<char>|
            is_two_part_fragment(frag, a, b) && p.key@ == url_dec_chars(a) && p.nonce@
                == url_dec_chars(b)) && p.path@ == t.1 && p.bin_url@ == bin_lookup_url(t.0, t.1))),
        r matches Err(e) ==> e == SecretError::ParseError,
        r is Err <==> (url_parts_of(url@) is None || (url_parts_of(url@) matches Some(t) && (
        t.2 is None || (t.2 matches Some(frag) && forall|a: Seq<char>, b: Seq<char>|
            !is_two_part_fragment(frag, a, b))))),
{
    let parts = match url_components(url) {
        Some(p) => p,
        None => return Err(SecretError::ParseError),
    };
    let frag = match parts.fragment {
        Some(f) => f,
        None => return Err(SecretError::ParseError),
    };
    let (key_part, nonce_part) = match split_fragment(frag.as_str()) {
        Some(p) => p,
        None => return Err(SecretError::ParseError),
    };
    let bin_url = lookup_from(parts.base.as_str(), parts.path.as_str());
    Ok(
        ParsedUrl {
            key: b64_url_dec(key_part.as_str()),
            nonce: b64_url_dec(nonce_part.as_str()),
            path: parts.path,
            bin_url,
        },
    )
}

/// Builds the outbound share URL:
/// `base/bins/id#<urlsafe key>&<urlsafe nonce>`.
pub fn build_share_url(base_url: &str, bin_id: &str, key_b64: &str, nonce_b64: &str) -> (r: String)
    ensures
        r@ == base_url@ + "/bins/"@ + bin_id@ + "#"@ + url_enc_chars(key_b64@) + "&"@
            + url_enc_chars(nonce_b64@),
{
    let mut out = String::new();
    out.append(base_url);
    out.append("/bins/");
    out.append(bin_id);
    out.append("#");
    let key_enc = b64_url_enc(key_b64);
    out.append(key_enc.as_str());
    out.append("&");
    let nonce_enc = b64_url_enc(nonce_b64);
    out.append(nonce_enc.as_str());
    out
}

/// The fragment of a built share URL carries the key and nonce base64
/// texts faithfully: it splits in exactly one way, into the two URL-safe
/// parts, and URL-safe decoding gives the original base64 texts back.
pub proof fn lemma_fragment_round_trip(key_b64: Seq<char>, nonce_b64: Seq<char>)
    requires
        forall|i: int| 0 <= i < key_b64.len() ==> is_b64_std_char(#[trigger] key_b64[i]),
        forall|i: int| 0 <= i < nonce_b64.len() ==> is_b64_std_char(#[trigger] nonce_b64[i]),
    ensures
        is_two_part_fragment(
            url_enc_chars(key_b64) + seq!['&'] + url_enc_chars(nonce_b64),
            url_enc_chars(key_b64),
            url_enc_chars(nonce_b64),
        ),
        url_dec_chars(url_enc_chars(key_b64)) == key_b64,
        url_dec_chars(url_enc_chars(nonce_b64)) == nonce_b64,
        forall|a: Seq<char>, b: Seq<char>|
            is_two_part_fragment(
                url_enc_chars(key_b64) + seq!['&'] + url_enc_chars(nonce_b64),
                a,
                b,
            ) ==> a == url_enc_chars(key_b64) && b == url_enc_chars(nonce_b64),
{
    crate::codec::lemma_url_codec_round_trip(key_b64);
    crate::codec::lemma_url_codec_round_trip(nonce_b64);
    assert forall|i: int| 0 <= i < url_enc_chars(key_b64).len() implies url_enc_chars(key_b64)[i]
        != '&' by {
        assert(is_b64_std_char(key_b64[i]));
    }
    assert forall|i: int|
        0 <= i < url_enc_chars(nonce_b64).len() implies url_enc_chars(nonce_b64)[i] != '&' by {
        assert(is_b64_std_char(nonce_b64[i]));
    }
    let s = url_enc_chars(key_b64) + seq!['&'] + url_enc_chars(nonce_b64);
    assert forall|a: Seq<char>, b: Seq<char>|
        is_two_part_fragment(s, a, b) implies a == url_enc_chars(key_b64) && b == url_enc_chars(
        nonce_b64,
    ) by {
        lemma_two_part_unique(s, url_enc_chars(key_b64), url_enc_chars(nonce_b64), a, b);
    }
}

} // verus!
