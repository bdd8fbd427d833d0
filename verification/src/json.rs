use vstd::prelude::*;

use crate::errors::SecretError;

verus! {

/// ASCII code of `"`.
pub const QUOTE: u8 = 34;

/// ASCII code of `\\`.
pub const BACKSLASH: u8 = 92;

/// ASCII code of `{`.
pub const LBRACE: u8 = 123;

/// ASCII code of `}`.
pub const RBRACE: u8 = 125;

/// ASCII code of `:`.
pub const COLON: u8 = 58;

/// ASCII code of `,`.
pub const COMMA: u8 = 44;


/// A JSON string token: the content between two quotes.
pub open spec fn quoted(s: Seq<u8>) -> Seq<u8> {
    seq![QUOTE] + s + seq![QUOTE]
}

/// A JSON member: a quoted key, a colon, a quoted value.
pub open spec fn json_pair(key: Seq<u8>, val: Seq<u8>) -> Seq<u8> {
    quoted(key) + seq![COLON] + quoted(val)
}

/// Text that can sit between quotes without escaping: no quote, no
/// backslash. Base64 text is always of this shape.
pub open spec fn plain_json_value(v: Seq<u8>) -> bool {
    forall|i: int| 0 <= i < v.len() ==> v[i] != QUOTE && v[i] != BACKSLASH
}

/// The bytes of the key `salt`.
pub open spec fn salt_key() -> Seq<u8> {
    seq![115u8, 97u8, 108u8, 116u8]
}

/// The bytes of the key `iv`.
pub open spec fn iv_key() -> Seq<u8> {
    seq![105u8, 118u8]
}

/// The bytes of the key `cipher`.
pub open spec fn cipher_key() -> Seq<u8> {
    seq![99u8, 105u8, 112u8, 104u8, 101u8, 114u8]
}

/// An object of exactly three members, in the given order, with no
/// whitespace: the shape this protocol writes and reads.
pub open spec fn envelope3(
    k1: Seq<u8>,
    v1: Seq<u8>,
    k2: Seq<u8>,
    v2: Seq<u8>,
    k3: Seq<u8>,
    v3: Seq<u8>,
) -> Seq<u8> {
    seq![LBRACE] + json_pair(k1, v1) + seq![COMMA] + json_pair(k2, v2) + seq![COMMA] + json_pair(k3, v3)
        + seq![RBRACE]
}

/// The canonical serialization of the password envelope, keys in the order
/// the builder emits them: cipher, iv, salt.
pub open spec fn envelope_json(salt: Seq<u8>, iv: Seq<u8>, cipher: Seq<u8>) -> Seq<u8> {
    envelope3(cipher_key(), cipher, iv_key(), iv, salt_key(), salt)
}

/// `s` is a password envelope object carrying the three fields, whatever
/// the order of its members.
pub open spec fn is_envelope(s: Seq<u8>, salt: Seq<u8>, iv: Seq<u8>, cipher: Seq<u8>) -> bool {
    ||| s == envelope3(cipher_key(), cipher, iv_key(), iv, salt_key(), salt)
    ||| s == envelope3(cipher_key(), cipher, salt_key(), salt, iv_key(), iv)
    ||| s == envelope3(iv_key(), iv, cipher_key(), cipher, salt_key(), salt)
    ||| s == envelope3(iv_key(), iv, salt_key(), salt, cipher_key(), cipher)
    ||| s == envelope3(salt_key(), salt, cipher_key(), cipher, iv_key(), iv)
    ||| s == envelope3(salt_key(), salt, iv_key(), iv, cipher_key(), cipher)
}

/// Where every piece of a three-member object sits.
proof fn lemma_envelope3_layout(
    k1: Seq<u8>,
    v1: Seq<u8>,
    k2: Seq<u8>,
    v2: Seq<u8>,
    k3: Seq<u8>,
    v3: Seq<u8>,
)
    ensures
        envelope3(k1, v1, k2, v2, k3, v3).len() == 19 + k1.len() + v1.len() + k2.len() + v2.len()
            + k3.len() + v3.len(),
        envelope3(k1, v1, k2, v2, k3, v3)[0] == LBRACE,
        envelope3(k1, v1, k2, v2, k3, v3).subrange(1, 6 + k1.len() + v1.len() as int) == json_pair(
            k1,
            v1,
        ),
        envelope3(k1, v1, k2, v2, k3, v3)[6 + k1.len() + v1.len() as int] == COMMA,
        envelope3(k1, v1, k2, v2, k3, v3).subrange(
            7 + k1.len() + v1.len() as int,
            12 + k1.len() + v1.len() + k2.len() + v2.len() as int,
        ) == json_pair(k2, v2),
        envelope3(k1, v1, k2, v2, k3, v3)[12 + k1.len() + v1.len() + k2.len() + v2.len() as int]
            == COMMA,
        envelope3(k1, v1, k2, v2, k3, v3).subrange(
            13 + k1.len() + v1.len() + k2.len() + v2.len() as int,
            18 + k1.len() + v1.len() + k2.len() + v2.len() + k3.len() + v3.len() as int,
        ) == json_pair(k3, v3),
        envelope3(k1, v1, k2, v2, k3, v3)[18 + k1.len() + v1.len() + k2.len() + v2.len() + k3.len()
            + v3.len() as int] == RBRACE,
{
    let s = envelope3(k1, v1, k2, v2, k3, v3);
    assert(json_pair(k1, v1).len() == 5 + k1.len() + v1.len());
    assert(json_pair(k2, v2).len() == 5 + k2.len() + v2.len());
    assert(json_pair(k3, v3).len() == 5 + k3.len() + v3.len());
    assert(s.subrange(1, 6 + k1.len() + v1.len() as int) =~= json_pair(k1, v1));
    assert(s.subrange(
        7 + k1.len() + v1.len() as int,
        12 + k1.len() + v1.len() + k2.len() + v2.len() as int,
    ) =~= json_pair(k2, v2));
    assert(s.subrange(
        13 + k1.len() + v1.len() + k2.len() + v2.len() as int,
        18 + k1.len() + v1.len() + k2.len() + v2.len() + k3.len() + v3.len() as int,
    ) =~= json_pair(k3, v3));
}

/// Appends a slice to a byte vector.
fn extend_bytes(out: &mut Vec<u8>, s: &[u8])
    ensures
        final(out)@ == old(out)@ + s@,
{
    let n = s.len();
    let mut i: usize = 0;
    while i < n
        invariant
            n == s@.len(),
            i <= n,
            out@ == old(out)@ + s@.take(i as int),
        decreases n - i,
    {
        out.push(s[i]);
        proof {
            assert(old(out)@ + s@.take(i + 1) =~= (old(out)@ + s@.take(i as int)).push(
                s@[i as int],
            ));
        }
        i = i + 1;
    }
    proof {
        assert(old(out)@ + s@.take(n as int) =~= old(out)@ + s@);
    }
}

/// Appends a quoted string token.
fn push_quoted(out: &mut Vec<u8>, content: &[u8])
    ensures
        final(out)@ == old(out)@ + quoted(content@),
{
    out.push(QUOTE);
    extend_bytes(out, content);
    out.push(QUOTE);
    proof {
        assert(out@ =~= old(out)@ + quoted(content@));
    }
}

/// Appends one JSON member.
fn push_pair(out: &mut Vec<u8>, key: &[u8], val: &[u8])
    ensures
        final(out)@ == old(out)@ + json_pair(key@, val@),
{
    push_quoted(out, key);
    out.push(COLON);
    push_quoted(out, val);
    proof {
        assert(out@ =~= old(out)@ + json_pair(key@, val@));
    }
}

/// Serializes the password envelope in its canonical shape:
/// `{"cipher":"...","iv":"...","salt":"..."}`, each field already base64
/// text.
pub fn build_envelope_json(salt_b64: &[u8], iv_b64: &[u8], cipher_b64: &[u8]) -> (r: Vec<u8>)
    ensures
        r@ == envelope_json(salt_b64@, iv_b64@, cipher_b64@),
{
    let ck: [u8; 6] = [99, 105, 112, 104, 101, 114];
    let ik: [u8; 2] = [105, 118];
    let sk: [u8; 4] = [115, 97, 108, 116];
    proof {
        assert(ck@ =~= cipher_key());
        assert(ik@ =~= iv_key());
        assert(sk@ =~= salt_key());
    }
    let mut out: Vec<u8> = Vec::new();
    out.push(LBRACE);
    push_pair(&mut out, ck.as_slice(), cipher_b64);
    out.push(COMMA);
    push_pair(&mut out, ik.as_slice(), iv_b64);
    out.push(COMMA);
    push_pair(&mut out, sk.as_slice(), salt_b64);
    out.push(RBRACE);
    proof {
        assert(out@ =~= envelope_json(salt_b64@, iv_b64@, cipher_b64@));
    }
    out
}

/// Reads a quoted string token at `start`: the content up to the next
/// quote, with escapes refused.
fn parse_quoted(s: &[u8], start: usize) -> (r: Option<(Vec<u8>, usize)>)
    ensures
        r matches Some(p) ==> (start + p.0@.len() + 2 <= s@.len() && p.1 == start + p.0@.len() + 2
            && s@.subrange(start as int, p.1 as int) == quoted(p.0@) && plain_json_value(p.0@)),
        forall|v: Seq<u8>|
            (plain_json_value(v) && start + v.len() + 2 <= s@.len() && s@.subrange(
                start as int,
                start + v.len() + 2,
            ) == quoted(v)) ==> (r matches Some(p) && p.0@ == v),
{
    if start >= s.len() || s[start] != QUOTE {
        proof {
            assert forall|v: Seq<u8>|
                !(plain_json_value(v) && start + v.len() + 2 <= s@.len() && s@.subrange(
                    start as int,
                    start + v.len() + 2,
                ) == quoted(v)) by {
                if plain_json_value(v) && start + v.len() + 2 <= s@.len() && s@.subrange(
                    start as int,
                    start + v.len() + 2,
                ) == quoted(v) {
                    assert(s@[start as int] == quoted(v)[0]);
                }
            }
        }
        return None;
    }
    let mut j = start + 1;
    let mut content: Vec<u8> = Vec::new();
    while j < s.len()
        invariant
            start + 1 <= j <= s@.len(),
            start < s@.len(),
            s@[start as int] == QUOTE,
            content@ == s@.subrange(start + 1, j as int),
            forall|t: int| start + 1 <= t < j ==> s@[t] != QUOTE && s@[t] != BACKSLASH,
        decreases s@.len() - j,
    {
        let c = s[j];
        if c == QUOTE {
            proof {
                assert(s@.subrange(start as int, j + 1) =~= quoted(content@));
                assert forall|v: Seq<u8>|
                    (plain_json_value(v) && start + v.len() + 2 <= s@.len() && s@.subrange(
                        start as int,
                        start + v.len() + 2,
                    ) == quoted(v)) implies v == content@ by {
                    let end = start + v.len() + 1;
                    assert(s@[end as int] == quoted(v)[v.len() as int + 1]);
                    assert(s@[end as int] == QUOTE);
                    assert forall|t: int| start + 1 <= t < end implies s@[t] != QUOTE by {
                        assert(s@[t] == quoted(v)[t - start]);
                        assert(quoted(v)[t - start] == v[t - start - 1]);
                    }
                    if end < j as int {
                        assert(s@[end as int] != QUOTE);
                    }
                    if j < end {
                        assert(s@[j as int] != QUOTE);
                    }
                    assert(end == j);
                    assert(v =~= content@) by {
                        assert forall|t: int| 0 <= t < v.len() implies v[t] == content@[t] by {
                            assert(quoted(v)[t + 1] == v[t]);
                            assert(s@[start + 1 + t] == v[t]);
                        }
                    }
                }
            }
            return Some((content, j + 1));
        }
        if c == BACKSLASH {
            proof {
                assert forall|v: Seq<u8>|
                    !(plain_json_value(v) && start + v.len() + 2 <= s@.len() && s@.subrange(
                        start as int,
                        start + v.len() + 2,
                    ) == quoted(v)) by {
                    if plain_json_value(v) && start + v.len() + 2 <= s@.len() && s@.subrange(
                        start as int,
                        start + v.len() + 2,
                    ) == quoted(v) {
                        let end = start + v.len() + 1;
                        if j < end {
                            assert(s@[j as int] == quoted(v)[j - start]);
                            if j - start - 1 < v.len() {
                                assert(quoted(v)[j - start] == v[j - start - 1]);
                            }
                        } else {
                            assert(s@[end as int] == quoted(v)[v.len() as int + 1]);
                            assert(s@[end as int] == QUOTE);
                        }
                    }
                }
            }
            return None;
        }
        content.push(c);
        proof {
            assert(s@.subrange(start + 1, j + 1) =~= s@.subrange(start + 1, j as int).push(
                s@[j as int],
            ));
        }
        j = j + 1;
    }
    proof {
        assert forall|v: Seq<u8>|
            !(plain_json_value(v) && start + v.len() + 2 <= s@.len() && s@.subrange(
                start as int,
                start + v.len() + 2,
            ) == quoted(v)) by {
            if plain_json_value(v) && start + v.len() + 2 <= s@.len() && s@.subrange(
                start as int,
                start + v.len() + 2,
            ) == quoted(v) {
                let end = start + v.len() + 1;
                assert(s@[end as int] == quoted(v)[v.len() as int + 1]);
                assert(s@[end as int] == QUOTE);
            }
        }
    }
    None
}

/// Reads one JSON member at `start`.
fn parse_pair(s: &[u8], start: usize) -> (r: Option<(Vec<u8>, Vec<u8>, usize)>)
    ensures
        r matches Some(p) ==> (start + p.0@.len() + p.1@.len() + 5 <= s@.len() && p.2 == start
            + p.0@.len() + p.1@.len() + 5 && s@.subrange(start as int, p.2 as int) == json_pair(
            p.0@,
            p.1@,
        ) && plain_json_value(p.0@) && plain_json_value(p.1@)),
        forall|k: Seq<u8>, v: Seq<u8>|
            (plain_json_value(k) && plain_json_value(v) && start + k.len() + v.len() + 5 <= s@.len()
                && s@.subrange(start as int, start + k.len() + v.len() + 5) == json_pair(k, v))
                ==> (r matches Some(p) && p.0@ == k && p.1@ == v),
{
    proof {
        assert forall|k: Seq<u8>, v: Seq<u8>|
            (plain_json_value(k) && plain_json_value(v) && start + k.len() + v.len() + 5 <= s@.len()
                && s@.subrange(start as int, start + k.len() + v.len() + 5) == json_pair(
                k,
                v,
            )) implies (s@.subrange(start as int, start + k.len() + 2) == quoted(k) && s@[start
            + k.len() + 2] == COLON && s@.subrange(
            start + k.len() + 3,
            start + k.len() + v.len() + 5,
        ) == quoted(v)) by {
            let whole = s@.subrange(start as int, start + k.len() + v.len() + 5);
            assert(s@.subrange(start as int, start + k.len() + 2) =~= whole.subrange(
                0,
                k.len() as int + 2,
            ));
            assert(whole.subrange(0, k.len() as int + 2) =~= quoted(k));
            assert(s@[start + k.len() + 2] == whole[k.len() as int + 2]);
            assert(s@.subrange(start + k.len() + 3, start + k.len() + v.len() + 5)
                =~= whole.subrange(k.len() as int + 3, k.len() as int + v.len() + 5));
            assert(whole.subrange(k.len() as int + 3, k.len() as int + v.len() + 5) =~= quoted(v));
        }
    }
    let (key, after_key) = match parse_quoted(s, start) {
        Some(p) => p,
        None => {
            return None;
        },
    };
    if after_key >= s.len() || s[after_key] != COLON {
        proof {
            assert forall|k: Seq<u8>, v: Seq<u8>|
                !(plain_json_value(k) && plain_json_value(v) && start + k.len() + v.len() + 5
                    <= s@.len() && s@.subrange(start as int, start + k.len() + v.len() + 5)
                    == json_pair(k, v)) by {
                if plain_json_value(k) && plain_json_value(v) && start + k.len() + v.len() + 5
                    <= s@.len() && s@.subrange(start as int, start + k.len() + v.len() + 5)
                    == json_pair(k, v) {
                    assert(key@ == k);
                }
            }
        }
        return None;
    }
    let (val, end) = match parse_quoted(s, after_key + 1) {
        Some(p) => p,
        None => {
            proof {
                assert forall|k: Seq<u8>, v: Seq<u8>|
                    !(plain_json_value(k) && plain_json_value(v) && start + k.len() + v.len() + 5
                        <= s@.len() && s@.subrange(start as int, start + k.len() + v.len() + 5)
                        == json_pair(k, v)) by {
                    if plain_json_value(k) && plain_json_value(v) && start + k.len() + v.len() + 5
                        <= s@.len() && s@.subrange(start as int, start + k.len() + v.len() + 5)
                        == json_pair(k, v) {
                        assert(key@ == k);
                        assert(s@.subrange(after_key + 1, after_key + 1 + v.len() + 2) == quoted(
                            v,
                        ));
                    }
                }
            }
            return None;
        },
    };
    proof {
        assert(s@.subrange(start as int, end as int) =~= json_pair(key@, val@));
        assert forall|k: Seq<u8>, v: Seq<u8>|
            (plain_json_value(k) && plain_json_value(v) && start + k.len() + v.len() + 5 <= s@.len()
                && s@.subrange(start as int, start + k.len() + v.len() + 5) == json_pair(
                k,
                v,
            )) implies (key@ == k && val@ == v) by {
            assert(key@ == k);
            assert(s@.subrange(after_key + 1, after_key + 1 + v.len() + 2) == quoted(v));
        }
    }
    Some((key, val, end))
}


/// Compares two byte slices.
fn bytes_eq(a: &[u8], b: &[u8]) -> (r: bool)
    ensures
        r == (a@ == b@),
{
    if a.len() != b.len() {
        return false;
    }
    let n = a.len();
    let mut i: usize = 0;
    while i < n
        invariant
            n == a@.len(),
            a@.len() == b@.len(),
            i <= n,
            forall|j: int| 0 <= j < i ==> a@[j] == b@[j],
        decreases n - i,
    {
        if a[i] != b[i] {
            return false;
        }
        i = i + 1;
    }
    proof {
        assert(a@ =~= b@);
    }
    true
}

/// One member's key names one field and carries its value.
pub open spec fn keys_assign(k: Seq<u8>, v: Seq<u8>, sa: Seq<u8>, iv: Seq<u8>, ci: Seq<u8>) -> bool {
    ||| (k == salt_key() && v == sa)
    ||| (k == iv_key() && v == iv)
    ||| (k == cipher_key() && v == ci)
}

/// `s` is a three-member object whose distinct keys carry the three fields.
pub open spec fn envelope_decomp(
    s: Seq<u8>,
    k1: Seq<u8>,
    v1: Seq<u8>,
    k2: Seq<u8>,
    v2: Seq<u8>,
    k3: Seq<u8>,
    v3: Seq<u8>,
    sa: Seq<u8>,
    iv: Seq<u8>,
    ci: Seq<u8>,
) -> bool {
    &&& s == envelope3(k1, v1, k2, v2, k3, v3)
    &&& keys_assign(k1, v1, sa, iv, ci)
    &&& keys_assign(k2, v2, sa, iv, ci)
    &&& keys_assign(k3, v3, sa, iv, ci)
    &&& k1 != k2 && k1 != k3 && k2 != k3
}

/// The three key tokens hold no quote and no backslash, and differ.
proof fn lemma_keys_plain()
    ensures
        plain_json_value(salt_key()),
        plain_json_value(iv_key()),
        plain_json_value(cipher_key()),
        salt_key() != iv_key(),
        salt_key() != cipher_key(),
        iv_key() != cipher_key(),
{
    assert forall|i: int| 0 <= i < salt_key().len() implies salt_key()[i] != QUOTE && salt_key()[i]
        != BACKSLASH by {
        assert(salt_key()[0] == 115u8 && salt_key()[1] == 97u8 && salt_key()[2] == 108u8
            && salt_key()[3] == 116u8);
    }
    assert forall|i: int| 0 <= i < iv_key().len() implies iv_key()[i] != QUOTE && iv_key()[i]
        != BACKSLASH by {
        assert(iv_key()[0] == 105u8 && iv_key()[1] == 118u8);
    }
    assert forall|i: int|
        0 <= i < cipher_key().len() implies cipher_key()[i] != QUOTE && cipher_key()[i]
        != BACKSLASH by {
        assert(cipher_key()[0] == 99u8 && cipher_key()[1] == 105u8 && cipher_key()[2] == 112u8
            && cipher_key()[3] == 104u8 && cipher_key()[4] == 101u8 && cipher_key()[5] == 114u8);
    }
    assert(salt_key().len() == 4 && iv_key().len() == 2 && cipher_key().len() == 6);
}

/// An envelope, whatever its member order, decomposes into three distinct
/// keyed members.
proof fn lemma_envelope_pieces(s: Seq<u8>, sa: Seq<u8>, iv: Seq<u8>, ci: Seq<u8>)
    requires
        is_envelope(s, sa, iv, ci),
    ensures
        exists|k1: Seq<u8>, v1: Seq<u8>, k2: Seq<u8>, v2: Seq<u8>, k3: Seq<u8>, v3: Seq<u8>|
            envelope_decomp(s, k1, v1, k2, v2, k3, v3, sa, iv, ci),
{
    lemma_keys_plain();
    if s == envelope3(cipher_key(), ci, iv_key(), iv, salt_key(), sa) {
        assert(envelope_decomp(s, cipher_key(), ci, iv_key(), iv, salt_key(), sa, sa, iv, ci));
    } else if s == envelope3(cipher_key(), ci, salt_key(), sa, iv_key(), iv) {
        assert(envelope_decomp(s, cipher_key(), ci, salt_key(), sa, iv_key(), iv, sa, iv, ci));
    } else if s == envelope3(iv_key(), iv, cipher_key(), ci, salt_key(), sa) {
        assert(envelope_decomp(s, iv_key(), iv, cipher_key(), ci, salt_key(), sa, sa, iv, ci));
    } else if s == envelope3(iv_key(), iv, salt_key(), sa, cipher_key(), ci) {
        assert(envelope_decomp(s, iv_key(), iv, salt_key(), sa, cipher_key(), ci, sa, iv, ci));
    } else if s == envelope3(salt_key(), sa, cipher_key(), ci, iv_key(), iv) {
        assert(envelope_decomp(s, salt_key(), sa, cipher_key(), ci, iv_key(), iv, sa, iv, ci));
    } else {
        assert(envelope_decomp(s, salt_key(), sa, iv_key(), iv, cipher_key(), ci, sa, iv, ci));
    }
}

/// Pieces found at their places make up the whole object.
proof fn lemma_envelope3_reconstruct(
    s: Seq<u8>,
    k1: Seq<u8>,
    v1: Seq<u8>,
    k2: Seq<u8>,
    v2: Seq<u8>,
    k3: Seq<u8>,
    v3: Seq<u8>,
)
    requires
        s.len() == 19 + k1.len() + v1.len() + k2.len() + v2.len() + k3.len() + v3.len(),
        s[0] == LBRACE,
        s.subrange(1, 6 + k1.len() + v1.len() as int) == json_pair(k1, v1),
        s[6 + k1.len() + v1.len() as int] == COMMA,
        s.subrange(
            7 + k1.len() + v1.len() as int,
            12 + k1.len() + v1.len() + k2.len() + v2.len() as int,
        ) == json_pair(k2, v2),
        s[12 + k1.len() + v1.len() + k2.len() + v2.len() as int] == COMMA,
        s.subrange(
            13 + k1.len() + v1.len() + k2.len() + v2.len() as int,
            18 + k1.len() + v1.len() + k2.len() + v2.len() + k3.len() + v3.len() as int,
        ) == json_pair(k3, v3),
        s[18 + k1.len() + v1.len() + k2.len() + v2.len() + k3.len() + v3.len() as int] == RBRACE,
    ensures
        s == envelope3(k1, v1, k2, v2, k3, v3),
{
    lemma_envelope3_layout(k1, v1, k2, v2, k3, v3);
    let e = envelope3(k1, v1, k2, v2, k3, v3);
    let a1: int = 6 + k1.len() + v1.len() as int;
    let a2: int = 12 + k1.len() + v1.len() + k2.len() + v2.len() as int;
    let a3: int = 18 + k1.len() + v1.len() + k2.len() + v2.len() + k3.len() + v3.len() as int;
    assert forall|i: int| 0 <= i < s.len() implies s[i] == e[i] by {
        if i == 0 {
        } else if 1 <= i < a1 {
            assert(s[i] == s.subrange(1, a1)[i - 1]);
            assert(e[i] == e.subrange(1, a1)[i - 1]);
        } else if i == a1 {
        } else if a1 + 1 <= i < a2 {
            assert(s[i] == s.subrange(a1 + 1, a2)[i - a1 - 1]);
            assert(e[i] == e.subrange(a1 + 1, a2)[i - a1 - 1]);
        } else if i == a2 {
        } else if a2 + 1 <= i < a3 {
            assert(s[i] == s.subrange(a2 + 1, a3)[i - a2 - 1]);
            assert(e[i] == e.subrange(a2 + 1, a3)[i - a2 - 1]);
        } else {
            assert(i == a3);
        }
    }
    assert(s =~= e);
}

/// Reads one member at `start` followed by the one-byte separator `sep`,
/// and returns the index just past the separator.
fn parse_member_sep(s: &[u8], start: usize, sep: u8) -> (r: Option<(Vec<u8>, Vec<u8>, usize)>)
    ensures
        r matches Some(p) ==> (start + p.0@.len() + p.1@.len() + 6 <= s@.len() && p.2 == start
            + p.0@.len() + p.1@.len() + 6 && s@.subrange(start as int, p.2 - 1) == json_pair(
            p.0@,
            p.1@,
        ) && s@[p.2 - 1] == sep && plain_json_value(p.0@) && plain_json_value(p.1@)),
        r is None ==> forall|k: Seq<u8>, v: Seq<u8>|
            !(plain_json_value(k) && plain_json_value(v) && start + k.len() + v.len() + 6
                <= s@.len() && s@.subrange(start as int, start + k.len() + v.len() + 5)
                == json_pair(k, v) && s@[start + k.len() + v.len() as int + 5] == sep),
        r matches Some(p) ==> forall|k: Seq<u8>, v: Seq<u8>|
            (plain_json_value(k) && plain_json_value(v) && start + k.len() + v.len() + 6
                <= s@.len() && s@.subrange(start as int, start + k.len() + v.len() + 5)
                == json_pair(k, v) && s@[start + k.len() + v.len() as int + 5] == sep) ==> (p.0@
                == k && p.1@ == v),
{
    let (key, val, e) = match parse_pair(s, start) {
        Some(p) => p,
        None => {
            return None;
        },
    };
    if e >= s.len() || s[e] != sep {
        proof {
            assert forall|k: Seq<u8>, v: Seq<u8>|
                !(plain_json_value(k) && plain_json_value(v) && start + k.len() + v.len() + 6
                    <= s@.len() && s@.subrange(start as int, start + k.len() + v.len() + 5)
                    == json_pair(k, v) && s@[start + k.len() + v.len() as int + 5] == sep) by {
                if plain_json_value(k) && plain_json_value(v) && start + k.len() + v.len() + 6
                    <= s@.len() && s@.subrange(start as int, start + k.len() + v.len() + 5)
                    == json_pair(k, v) {
                    assert(key@ == k && val@ == v);
                }
            }
        }
        return None;
    }
    Some((key, val, e + 1))
}

/// Reads the three members of a braced object, with nothing around or
/// between them but the separators.
#[verifier::rlimit(100)]
#[verifier::spinoff_prover]
fn parse_three_members(s: &[u8]) -> (r: Option<(Vec<u8>, Vec<u8>, Vec<u8>, Vec<u8>, Vec<u8>, Vec<u8>)>)
    ensures
        r matches Some(t) ==> (s@ == envelope3(t.0@, t.1@, t.2@, t.3@, t.4@, t.5@)
            && plain_json_value(t.0@) && plain_json_value(t.1@) && plain_json_value(t.2@)
            && plain_json_value(t.3@) && plain_json_value(t.4@) && plain_json_value(t.5@)),
        r is None ==> forall|k1: Seq<u8>, v1: Seq<u8>, k2: Seq<u8>, v2: Seq<u8>, k3: Seq<u8>, v3: Seq<u8>|
            !(plain_json_value(k1) && plain_json_value(v1) && plain_json_value(k2)
                && plain_json_value(v2) && plain_json_value(k3) && plain_json_value(v3) && s@
                == envelope3(k1, v1, k2, v2, k3, v3)),
        r matches Some(t) ==> forall|k1: Seq<u8>, v1: Seq<u8>, k2: Seq<u8>, v2: Seq<u8>, k3: Seq<u8>, v3: Seq<u8>|
            (plain_json_value(k1) && plain_json_value(v1) && plain_json_value(k2)
                && plain_json_value(v2) && plain_json_value(k3) && plain_json_value(v3) && s@
                == envelope3(k1, v1, k2, v2, k3, v3)) ==> (t.0@ == k1 && t.1@ == v1 && t.2@ == k2
                && t.3@ == v2 && t.4@ == k3 && t.5@ == v3),
{
    if s.len() == 0 || s[0] != LBRACE {
        proof {
            assert forall|k1: Seq<u8>, v1: Seq<u8>, k2: Seq<u8>, v2: Seq<u8>, k3: Seq<u8>, v3: Seq<u8>|
                !(plain_json_value(k1) && plain_json_value(v1) && plain_json_value(k2)
                    && plain_json_value(v2) && plain_json_value(k3) && plain_json_value(v3) && s@
                    == envelope3(k1, v1, k2, v2, k3, v3)) by {
                if s@ == envelope3(k1, v1, k2, v2, k3, v3) {
                    lemma_envelope3_layout(k1, v1, k2, v2, k3, v3);
                }
            }
        }
        return None;
    }
    let r1 = parse_member_sep(s, 1, COMMA);
    proof {
        if r1 is None {
            assert forall|k1: Seq<u8>, v1: Seq<u8>, k2: Seq<u8>, v2: Seq<u8>, k3: Seq<u8>, v3: Seq<u8>|
                !(plain_json_value(k1) && plain_json_value(v1) && plain_json_value(k2)
                    && plain_json_value(v2) && plain_json_value(k3) && plain_json_value(v3) && s@
                    == envelope3(k1, v1, k2, v2, k3, v3)) by {
                if plain_json_value(k1) && plain_json_value(v1) && s@ == envelope3(
                    k1,
                    v1,
                    k2,
                    v2,
                    k3,
                    v3,
                ) {
                    lemma_envelope3_layout(k1, v1, k2, v2, k3, v3);
                }
            }
        }
    }
    let (key1, val1, a1) = match r1 {
        Some(p) => p,
        None => {
            return None;
        },
    };
    let r2 = parse_member_sep(s, a1, COMMA);
    proof {
        if r2 is None {
            assert forall|k1: Seq<u8>, v1: Seq<u8>, k2: Seq<u8>, v2: Seq<u8>, k3: Seq<u8>, v3: Seq<u8>|
                !(plain_json_value(k1) && plain_json_value(v1) && plain_json_value(k2)
                    && plain_json_value(v2) && plain_json_value(k3) && plain_json_value(v3) && s@
                    == envelope3(k1, v1, k2, v2, k3, v3)) by {
                if plain_json_value(k1) && plain_json_value(v1) && plain_json_value(k2)
                    && plain_json_value(v2) && s@ == envelope3(k1, v1, k2, v2, k3, v3) {
                    lemma_envelope3_layout(k1, v1, k2, v2, k3, v3);
                    assert(key1@ == k1 && val1@ == v1);
                    assert(a1 == 7 + k1.len() + v1.len());
                }
            }
        }
    }
    let (key2, val2, a2) = match r2 {
        Some(p) => p,
        None => {
            return None;
        },
    };
    let r3 = parse_member_sep(s, a2, RBRACE);
    proof {
        if r3 is None {
            assert forall|k1: Seq<u8>, v1: Seq<u8>, k2: Seq<u8>, v2: Seq<u8>, k3: Seq<u8>, v3: Seq<u8>|
                !(plain_json_value(k1) && plain_json_value(v1) && plain_json_value(k2)
                    && plain_json_value(v2) && plain_json_value(k3) && plain_json_value(v3) && s@
                    == envelope3(k1, v1, k2, v2, k3, v3)) by {
                if plain_json_value(k1) && plain_json_value(v1) && plain_json_value(k2)
                    && plain_json_value(v2) && plain_json_value(k3) && plain_json_value(v3) && s@
                    == envelope3(k1, v1, k2, v2, k3, v3) {
                    lemma_envelope3_layout(k1, v1, k2, v2, k3, v3);
                    assert(key1@ == k1 && val1@ == v1);
                    assert(a1 == 7 + k1.len() + v1.len());
                    assert(key2@ == k2 && val2@ == v2);
                    assert(a2 == 13 + k1.len() + v1.len() + k2.len() + v2.len());
                }
            }
        }
    }
    let (key3, val3, a3) = match r3 {
        Some(p) => p,
        None => {
            return None;
        },
    };
    if a3 != s.len() {
        proof {
            assert forall|k1: Seq<u8>, v1: Seq<u8>, k2: Seq<u8>, v2: Seq<u8>, k3: Seq<u8>, v3: Seq<u8>|
                !(plain_json_value(k1) && plain_json_value(v1) && plain_json_value(k2)
                    && plain_json_value(v2) && plain_json_value(k3) && plain_json_value(v3) && s@
                    == envelope3(k1, v1, k2, v2, k3, v3)) by {
                if plain_json_value(k1) && plain_json_value(v1) && plain_json_value(k2)
                    && plain_json_value(v2) && plain_json_value(k3) && plain_json_value(v3) && s@
                    == envelope3(k1, v1, k2, v2, k3, v3) {
                    lemma_envelope3_layout(k1, v1, k2, v2, k3, v3);
                    assert(key1@ == k1 && val1@ == v1);
                    assert(a1 == 7 + k1.len() + v1.len());
                    assert(key2@ == k2 && val2@ == v2);
                    assert(a2 == 13 + k1.len() + v1.len() + k2.len() + v2.len());
                    assert(key3@ == k3 && val3@ == v3);
                }
            }
        }
        return None;
    }
    proof {
        lemma_envelope3_reconstruct(s@, key1@, val1@, key2@, val2@, key3@, val3@);
        assert forall|k1: Seq<u8>, v1: Seq<u8>, k2: Seq<u8>, v2: Seq<u8>, k3: Seq<u8>, v3: Seq<u8>|
            (plain_json_value(k1) && plain_json_value(v1) && plain_json_value(k2)
                && plain_json_value(v2) && plain_json_value(k3) && plain_json_value(v3) && s@
                == envelope3(k1, v1, k2, v2, k3, v3)) implies (key1@ == k1 && val1@ == v1 && key2@
            == k2 && val2@ == v2 && key3@ == k3 && val3@ == v3) by {
            lemma_envelope3_layout(k1, v1, k2, v2, k3, v3);
            assert(key1@ == k1 && val1@ == v1);
            assert(a1 == 7 + k1.len() + v1.len());
            assert(key2@ == k2 && val2@ == v2);
            assert(a2 == 13 + k1.len() + v1.len() + k2.len() + v2.len());
        }
    }
    Some((key1, val1, key2, val2, key3, val3))
}

/// The fields of a parsed password envelope, each still base64 text.
#[derive(Debug)]
pub struct EnvelopeFields {
    /// Base64 text of the key-derivation salt.
    pub salt: Vec<u8>,
    /// Base64 text of the inner nonce.
    pub iv: Vec<u8>,
    /// Base64 text of the inner ciphertext with its tag.
    pub cipher: Vec<u8>,
}

/// Parses the password envelope: an object of exactly the members `salt`,
/// `iv` and `cipher`, in any order, without whitespace, each value a string
/// free of escapes. Anything else is a `DecodeError`.
#[verifier::rlimit(50)]
pub fn parse_envelope_json(s: &[u8]) -> (r: Result<EnvelopeFields, SecretError>)
    ensures
        r matches Ok(f) ==> (is_envelope(s@, f.salt@, f.iv@, f.cipher@) && plain_json_value(f.salt@)
            && plain_json_value(f.iv@) && plain_json_value(f.cipher@)),
        forall|sa: Seq<u8>, iv: Seq<u8>, ci: Seq<u8>|
            (plain_json_value(sa) && plain_json_value(iv) && plain_json_value(ci) && is_envelope(
                s@,
                sa,
                iv,
                ci,
            )) ==> (r matches Ok(f) && f.salt@ == sa && f.iv@ == iv && f.cipher@ == ci),
        r matches Err(e) ==> e == SecretError::DecodeError,
{
    let parsed = parse_three_members(s);
    proof {
        if parsed is None {
            assert forall|sa: Seq<u8>, iv: Seq<u8>, ci: Seq<u8>|
                !(plain_json_value(sa) && plain_json_value(iv) && plain_json_value(ci)
                    && is_envelope(s@, sa, iv, ci)) by {
                if plain_json_value(sa) && plain_json_value(iv) && plain_json_value(ci)
                    && is_envelope(s@, sa, iv, ci) {
                    lemma_envelope_pieces(s@, sa, iv, ci);
                    let (k1, v1, k2, v2, k3, v3) = choose|
                        k1: Seq<u8>,
                        v1: Seq<u8>,
                        k2: Seq<u8>,
                        v2: Seq<u8>,
                        k3: Seq<u8>,
                        v3: Seq<u8>,
                    | envelope_decomp(s@, k1, v1, k2, v2, k3, v3, sa, iv, ci);
                    lemma_keys_plain();
                }
            }
        }
    }
    let (key1, val1, key2, val2, key3, val3) = match parsed {
        Some(t) => t,
        None => {
            return Err(SecretError::DecodeError);
        },
    };
    proof {
        assert forall|sa: Seq<u8>, iv: Seq<u8>, ci: Seq<u8>|
            (plain_json_value(sa) && plain_json_value(iv) && plain_json_value(ci) && is_envelope(
                s@,
                sa,
                iv,
                ci,
            )) implies envelope_decomp(
            s@,
            key1@,
            val1@,
            key2@,
            val2@,
            key3@,
            val3@,
            sa,
            iv,
            ci,
        ) by {
            lemma_envelope_pieces(s@, sa, iv, ci);
            let (k1, v1, k2, v2, k3, v3) = choose|
                k1: Seq<u8>,
                v1: Seq<u8>,
                k2: Seq<u8>,
                v2: Seq<u8>,
                k3: Seq<u8>,
                v3: Seq<u8>,
            | envelope_decomp(s@, k1, v1, k2, v2, k3, v3, sa, iv, ci);
            lemma_keys_plain();
            assert(key1@ == k1 && val1@ == v1 && key2@ == k2 && val2@ == v2 && key3@ == k3 && val3@
                == v3);
        }
        lemma_keys_plain();
    }
    let sk: [u8; 4] = [115, 97, 108, 116];
    let ik: [u8; 2] = [105, 118];
    let ck: [u8; 6] = [99, 105, 112, 104, 101, 114];
    proof {
        assert(sk@ =~= salt_key());
        assert(ik@ =~= iv_key());
        assert(ck@ =~= cipher_key());
    }
    let mut salt_slot: Option<Vec<u8>> = None;
    let mut iv_slot: Option<Vec<u8>> = None;
    let mut cipher_slot: Option<Vec<u8>> = None;
    if bytes_eq(key1.as_slice(), sk.as_slice()) {
        salt_slot = Some(val1);
    } else if bytes_eq(key1.as_slice(), ik.as_slice()) {
        iv_slot = Some(val1);
    } else if bytes_eq(key1.as_slice(), ck.as_slice()) {
        cipher_slot = Some(val1);
    } else {
        return Err(SecretError::DecodeError);
    }
    if bytes_eq(key2.as_slice(), sk.as_slice()) {
        if salt_slot.is_some() {
            return Err(SecretError::DecodeError);
        }
        salt_slot = Some(val2);
    } else if bytes_eq(key2.as_slice(), ik.as_slice()) {
        if iv_slot.is_some() {
            return Err(SecretError::DecodeError);
        }
        iv_slot = Some(val2);
    } else if bytes_eq(key2.as_slice(), ck.as_slice()) {
        if cipher_slot.is_some() {
            return Err(SecretError::DecodeError);
        }
        cipher_slot = Some(val2);
    } else {
        return Err(SecretError::DecodeError);
    }
    if bytes_eq(key3.as_slice(), sk.as_slice()) {
        if salt_slot.is_some() {
            return Err(SecretError::DecodeError);
        }
        salt_slot = Some(val3);
    } else if bytes_eq(key3.as_slice(), ik.as_slice()) {
        if iv_slot.is_some() {
            return Err(SecretError::DecodeError);
        }
        iv_slot = Some(val3);
    } else if bytes_eq(key3.as_slice(), ck.as_slice()) {
        if cipher_slot.is_some() {
            return Err(SecretError::DecodeError);
        }
        cipher_slot = Some(val3);
    } else {
        return Err(SecretError::DecodeError);
    }
    let (salt, iv, cipher) = match (salt_slot, iv_slot, cipher_slot) {
        (Some(a), Some(b), Some(c)) => (a, b, c),
        _ => {
            return Err(SecretError::DecodeError);
        },
    };
    Ok(EnvelopeFields { salt, iv, cipher })
}

} // verus!
