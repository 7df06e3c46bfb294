//! Parameter canonicalisation and request signing for the authenticated
//! trading endpoint.
//!
//! A request's parameters are kept sorted by key; the canonical query is
//! the `k1=v1&k2=v2&...` rendering of that order, and the signature is
//! the lowercase hex HMAC-SHA256 of the query under the account secret.

use vstd::prelude::*;
use crate::text::{dec_chars, lex_le, lex_lt, str_eq, str_le, u64_to_dec};

verus! {

broadcast use vstd::string::group_string_axioms;

/// The lowercase hex digit of a nibble.
pub open spec fn hex_digit(n: int) -> char {
    if n < 10 {
        ((48 + n) as u32) as char
    } else {
        ((87 + n) as u32) as char
    }
}

/// Lowercase hex encoding: two digits per byte, high nibble first.
pub open spec fn hex_of(b: Seq<u8>) -> Seq<char>
    decreases b.len(),
{
    if b.len() == 0 {
        Seq::empty()
    } else {
        seq![hex_digit(b[0] as int / 16), hex_digit(b[0] as int % 16)] + hex_of(b.drop_first())
    }
}

/// Every hex rendering is twice as long as its input and uses only
/// `0`..`9` and `a`..`f`.
pub proof fn lemma_hex_format(b: Seq<u8>)
    ensures
        hex_of(b).len() == 2 * b.len(),
        forall|i: int|
            0 <= i < hex_of(b).len() ==> (48 <= (#[trigger] hex_of(b)[i] as u32) <= 57 || 97 <= (
            hex_of(b)[i] as u32) <= 102),
    decreases b.len(),
{
    if b.len() > 0 {
        lemma_hex_format(b.drop_first());
        assert forall|i: int|
            0 <= i < hex_of(b).len() implies (48 <= (#[trigger] hex_of(b)[i] as u32) <= 57 || 97
            <= (hex_of(b)[i] as u32) <= 102) by {
            if i >= 2 {
                assert(hex_of(b)[i] == hex_of(b.drop_first())[i - 2]);
            } else if i == 0 {
                assert(hex_of(b)[0] == hex_digit(b[0] as int / 16));
            } else {
                assert(hex_of(b)[1] == hex_digit(b[0] as int % 16));
            }
        }
    }
}

/// The HMAC-SHA256 tag of a message under a key.  The tag is a function
/// of the two arguments alone; its definition lives in the hmac crate.
pub uninterp spec fn hmac_sha256_of(key: Seq<u8>, msg: Seq<u8>) -> Seq<u8>;

/// Relies on hmac's `Hmac<Sha256>`: the tag depends on key and message
/// alone, is 32 bytes long, and every key length is accepted, so
/// `new_from_slice` cannot fail.
#[verifier::external_body]
pub(crate) fn hmac_sha256(key: &[u8], msg: &[u8]) -> (r: Vec<u8>)
    ensures
        r@ == hmac_sha256_of(key@, msg@),
        r@.len() == 32,
{
    let mut mac = <hmac::Hmac<sha2::Sha256> as hmac::KeyInit>::new_from_slice(key).unwrap();
    hmac::Mac::update(&mut mac, msg);
    hmac::Mac::finalize(mac).into_bytes().to_vec()
}

/// Relies on hex::encode: two lowercase hex digits per byte, high nibble
/// first.
#[verifier::external_body]
pub(crate) fn bytes_to_hex(bytes: &Vec<u8>) -> (r: String)
    ensures
        r@ == hex_of(bytes@),
{
    hex::encode(bytes)
}

/// The key/value views of a parameter list.
pub open spec fn entries_views(s: Seq<(String, String)>) -> Seq<(Seq<char>, Seq<char>)> {
    s.map(|_i: int, e: (String, String)| (e.0@, e.1@))
}

/// Insertion into a key-sorted list: an equal key is overwritten in
/// place, otherwise the entry lands at its ordered position.
pub open spec fn sorted_insert_v(s: Seq<(Seq<char>, Seq<char>)>, kv: (Seq<char>, Seq<char>)) -> Seq<
    (Seq<char>, Seq<char>),
>
    decreases s.len(),
{
    if s.len() == 0 {
        seq![kv]
    } else if s[0].0 == kv.0 {
        seq![kv] + s.drop_first()
    } else if lex_le(kv.0, s[0].0) {
        seq![kv] + s
    } else {
        seq![s[0]] + sorted_insert_v(s.drop_first(), kv)
    }
}

/// The canonical `k1=v1&k2=v2&...` rendering, in list order.
pub open spec fn query_of(s: Seq<(Seq<char>, Seq<char>)>) -> Seq<char>
    decreases s.len(),
{
    if s.len() == 0 {
        Seq::empty()
    } else if s.len() == 1 {
        s[0].0 + seq!['='] + s[0].1
    } else {
        s[0].0 + seq!['='] + s[0].1 + seq!['&'] + query_of(s.drop_first())
    }
}

proof fn lemma_query_push(s: Seq<(Seq<char>, Seq<char>)>, e: (Seq<char>, Seq<char>))
    ensures
        s.len() == 0 ==> query_of(s.push(e)) == e.0 + seq!['='] + e.1,
        s.len() > 0 ==> query_of(s.push(e)) == query_of(s) + seq!['&'] + e.0 + seq!['='] + e.1,
    decreases s.len(),
{
    if s.len() == 0 {
        assert(s.push(e)[0] == e);
        assert(query_of(s.push(e)) =~= e.0 + seq!['='] + e.1);
    } else {
        lemma_query_push(s.drop_first(), e);
        assert(s.push(e)[0] == s[0]);
        assert(s.push(e).drop_first() =~= s.drop_first().push(e));
        if s.len() == 1 {
            assert(query_of(s.push(e)) =~= query_of(s) + seq!['&'] + e.0 + seq!['='] + e.1);
        } else {
            assert(query_of(s.push(e)) =~= query_of(s) + seq!['&'] + e.0 + seq!['='] + e.1);
        }
    }
}

/// A parameter bundle, kept sorted by key (ascending code-point order)
/// with unique keys.
pub struct ParamMap {
    pub entries: Vec<(String, String)>,
}

impl ParamMap {
    pub open spec fn wf(&self) -> bool {
        &&& forall|i: int|
            0 <= i < self.entries@.len() ==> vstd::utf8::is_ascii_chars(
                #[trigger] self.entries@[i].0@,
            )
        &&& forall|i: int, j: int|
            0 <= i < j < self.entries@.len() ==> lex_lt(
                self.entries@[i].0@,
                self.entries@[j].0@,
            )
    }

    pub open spec fn views(&self) -> Seq<(Seq<char>, Seq<char>)> {
        entries_views(self.entries@)
    }

    pub fn new() -> (r: ParamMap)
        ensures
            r.wf(),
            r.views() =~= Seq::<(Seq<char>, Seq<char>)>::empty(),
    {
        ParamMap { entries: Vec::new() }
    }

    /// Inserts or overwrites one parameter at its sorted position.
    pub fn insert(&mut self, k: String, v: String)
        requires
            old(self).wf(),
            vstd::utf8::is_ascii_chars(k@),
        ensures
            final(self).wf(),
            final(self).views() == sorted_insert_v(old(self).views(), (k@, v@)),
    {
        let ghost pre = self.views();
        let n = self.entries.len();
        let mut i: usize = 0;
        while i < n && str_le(self.entries[i].0.as_str(), k.as_str()) && !str_eq(
            self.entries[i].0.as_str(),
            k.as_str(),
        )
            invariant
                self.wf(),
                vstd::utf8::is_ascii_chars(k@),
                n == self.entries@.len(),
                i <= n,
                pre == self.views(),
                forall|j: int| 0 <= j < i ==> lex_lt(#[trigger] self.entries@[j].0@, k@),
            decreases n - i,
        {
            i += 1;
        }
        if i < n && str_eq(self.entries[i].0.as_str(), k.as_str()) {
            let ghost prev = self.entries@;
            self.entries[i] = (k, v);
            proof {
                lemma_sorted_insert_replace(pre, i as int, (k@, v@));
                assert(self.views() =~= pre.update(i as int, (k@, v@)));
                assert forall|a: int, b: int|
                    0 <= a < b < self.entries@.len() implies lex_lt(
                    self.entries@[a].0@,
                    self.entries@[b].0@,
                ) by {
                    assert(self.entries@[a].0@ == prev[a].0@);
                    assert(self.entries@[b].0@ == prev[b].0@);
                }
            }
        } else {
            proof {
                if i < n {
                    crate::text::lemma_lex_le_total(self.entries@[i as int].0@, k@);
                }
                lemma_sorted_insert_fresh(pre, i as int, (k@, v@));
            }
            let ghost prev = self.entries@;
            self.entries.insert(i, (k, v));
            proof {
                assert(self.views() =~= pre.insert(i as int, (k@, v@)));
                assert forall|a: int, b: int|
                    0 <= a < b < self.entries@.len() implies lex_lt(
                    self.entries@[a].0@,
                    self.entries@[b].0@,
                ) by {
                    let ii = i as int;
                    if a < ii && b < ii {
                        assert(self.entries@[a].0@ == prev[a].0@);
                        assert(self.entries@[b].0@ == prev[b].0@);
                    } else if a < ii && b == ii {
                        assert(self.entries@[a].0@ == prev[a].0@);
                    } else if a < ii && b > ii {
                        assert(self.entries@[a].0@ == prev[a].0@);
                        assert(self.entries@[b].0@ == prev[b - 1].0@);
                    } else if a == ii && b > ii {
                        assert(self.entries@[b].0@ == prev[b - 1].0@);
                        if b - 1 > ii {
                            crate::text::lemma_lex_lt_transitive(
                                k@,
                                prev[ii].0@,
                                prev[b - 1].0@,
                            );
                        }
                    } else {
                        assert(self.entries@[a].0@ == prev[a - 1].0@);
                        assert(self.entries@[b].0@ == prev[b - 1].0@);
                    }
                }
            }
        }
    }

    /// Renders the canonical query string, in key order, without
    /// percent-encoding.
    pub fn canonical_query(&self) -> (q: String)
        ensures
            q@ == query_of(self.views()),
    {
        let n = self.entries.len();
        let mut q = String::new();
        let mut i: usize = 0;
        while i < n
            invariant
                n == self.entries@.len(),
                i <= n,
                q@ == query_of(self.views().take(i as int)),
            decreases n - i,
        {
            if i > 0 {
                q.append("&");
            }
            q.append(self.entries[i].0.as_str());
            q.append("=");
            q.append(self.entries[i].1.as_str());
            proof {
                reveal_strlit("&");
                reveal_strlit("=");
                assert("&"@ =~= seq!['&']);
                assert("="@ =~= seq!['=']);
                let vs = self.views();
                lemma_query_push(vs.take(i as int), vs[i as int]);
                assert(vs.take(i as int + 1) =~= vs.take(i as int).push(vs[i as int]));
                assert(q@ =~= query_of(vs.take(i as int + 1)));
            }
            i += 1;
        }
        proof {
            assert(self.views().take(n as int) =~= self.views());
        }
        q
    }
}

proof fn lemma_sorted_insert_replace(
    pre: Seq<(Seq<char>, Seq<char>)>,
    i: int,
    kv: (Seq<char>, Seq<char>),
)
    requires
        0 <= i < pre.len(),
        pre[i].0 == kv.0,
        forall|j: int| 0 <= j < i ==> lex_lt(#[trigger] pre[j].0, kv.0),
    ensures
        sorted_insert_v(pre, kv) == pre.update(i, kv),
    decreases i,
{
    if i == 0 {
        assert(sorted_insert_v(pre, kv) =~= pre.update(0, kv));
    } else {
        assert(pre[0].0 != kv.0);
        assert(!lex_le(kv.0, pre[0].0)) by {
            if lex_le(kv.0, pre[0].0) {
                crate::text::lemma_lex_le_antisymmetric(kv.0, pre[0].0);
            }
        }
        assert forall|j: int| 0 <= j < i - 1 implies lex_lt(
            #[trigger] pre.drop_first()[j].0,
            kv.0,
        ) by {
            assert(pre.drop_first()[j] == pre[j + 1]);
        }
        assert(pre.drop_first()[i - 1] == pre[i]);
        lemma_sorted_insert_replace(pre.drop_first(), i - 1, kv);
        assert(sorted_insert_v(pre, kv) =~= pre.update(i, kv));
    }
}

proof fn lemma_sorted_insert_fresh(
    pre: Seq<(Seq<char>, Seq<char>)>,
    i: int,
    kv: (Seq<char>, Seq<char>),
)
    requires
        0 <= i <= pre.len(),
        forall|j: int| 0 <= j < i ==> lex_lt(#[trigger] pre[j].0, kv.0),
        i < pre.len() ==> lex_le(kv.0, pre[i].0) && kv.0 != pre[i].0,
    ensures
        sorted_insert_v(pre, kv) == pre.insert(i, kv),
    decreases i,
{
    if pre.len() == 0 {
        assert(sorted_insert_v(pre, kv) =~= pre.insert(0, kv));
    } else if i == 0 {
        assert(sorted_insert_v(pre, kv) =~= pre.insert(0, kv));
    } else {
        assert(pre[0].0 != kv.0) by {
            assert(lex_lt(pre[0].0, kv.0));
        }
        assert(!lex_le(kv.0, pre[0].0)) by {
            if lex_le(kv.0, pre[0].0) {
                crate::text::lemma_lex_le_antisymmetric(kv.0, pre[0].0);
            }
        }
        assert forall|j: int| 0 <= j < i - 1 implies lex_lt(
            #[trigger] pre.drop_first()[j].0,
            kv.0,
        ) by {
            assert(pre.drop_first()[j] == pre[j + 1]);
        }
        if i - 1 < pre.drop_first().len() {
            assert(pre.drop_first()[i - 1] == pre[i]);
        }
        lemma_sorted_insert_fresh(pre.drop_first(), i - 1, kv);
        assert(sorted_insert_v(pre, kv) =~= pre.insert(i, kv));
    }
}

/// Account credentials for the authenticated endpoint.
pub struct BinanceAuth {
    pub api_key: String,
    pub api_secret: String,
}

/// The parameter bundle after the three authentication parameters are
/// injected, before signing.
pub open spec fn augmented_views(
    vs: Seq<(Seq<char>, Seq<char>)>,
    api_key: Seq<char>,
    timestamp_ms: u64,
) -> Seq<(Seq<char>, Seq<char>)> {
    sorted_insert_v(
        sorted_insert_v(
            sorted_insert_v(vs, ("apiKey"@, api_key)),
            ("timestamp"@, dec_chars(timestamp_ms as nat)),
        ),
        ("recvWindow"@, "5000"@),
    )
}

/// The signature of a canonical query under a secret.
pub open spec fn signature_of(secret: Seq<char>, query: Seq<char>) -> Seq<char> {
    hex_of(hmac_sha256_of(vstd::utf8::encode_utf8(secret), vstd::utf8::encode_utf8(query)))
}

impl BinanceAuth {
    pub open spec fn wf(&self) -> bool {
        vstd::utf8::is_ascii_chars(self.api_key@)
    }

    pub fn new(api_key: String, api_secret: String) -> (r: BinanceAuth)
        ensures
            r.api_key == api_key,
            r.api_secret == api_secret,
    {
        BinanceAuth { api_key, api_secret }
    }

    pub fn api_key(&self) -> (r: &String)
        ensures
            r == self.api_key,
    {
        &self.api_key
    }

    pub fn api_secret(&self) -> (r: &String)
        ensures
            r == self.api_secret,
    {
        &self.api_secret
    }

    /// Signs a query string: lowercase hex of HMAC-SHA256 under the
    /// account secret.
    pub fn sign_payload(&self, query: &str) -> (r: String)
        ensures
            r@ == signature_of(self.api_secret@, query@),
    {
        let tag = hmac_sha256(self.api_secret.as_str().as_bytes(), query.as_bytes());
        bytes_to_hex(&tag)
    }

    /// Injects `apiKey`, `timestamp` (caller-supplied wall-clock
    /// milliseconds) and `recvWindow` (the default 5000), renders the
    /// canonical query, signs it, and adds the signature.
    pub fn augment_and_sign_params(&self, params: ParamMap, timestamp_ms: u64) -> (r: ParamMap)
        requires
            params.wf(),
            self.wf(),
        ensures
            r.wf(),
            r.views() == sorted_insert_v(
                augmented_views(params.views(), self.api_key@, timestamp_ms),
                (
                    "signature"@,
                    signature_of(
                        self.api_secret@,
                        query_of(augmented_views(params.views(), self.api_key@, timestamp_ms)),
                    ),
                ),
            ),
    {
        let mut params = params;
        proof {
            reveal_strlit("apiKey");
            reveal_strlit("timestamp");
            reveal_strlit("recvWindow");
            reveal_strlit("signature");
            reveal_strlit("5000");
        }
        params.insert(String::from_str("apiKey"), self.api_key.clone());
        params.insert(String::from_str("timestamp"), u64_to_dec(timestamp_ms));
        params.insert(String::from_str("recvWindow"), String::from_str("5000"));
        let query = params.canonical_query();
        let signature = self.sign_payload(query.as_str());
        params.insert(String::from_str("signature"), signature);
        params
    }
}

/// Identical parameters, key, secret and timestamp give byte-identical
/// canonical queries and signatures.
pub proof fn lemma_signing_deterministic(
    a1: BinanceAuth,
    a2: BinanceAuth,
    vs1: Seq<(Seq<char>, Seq<char>)>,
    vs2: Seq<(Seq<char>, Seq<char>)>,
    timestamp_ms: u64,
)
    requires
        a1.api_key@ == a2.api_key@,
        a1.api_secret@ == a2.api_secret@,
        vs1 == vs2,
    ensures
        query_of(augmented_views(vs1, a1.api_key@, timestamp_ms)) == query_of(
            augmented_views(vs2, a2.api_key@, timestamp_ms),
        ),
        signature_of(a1.api_secret@, query_of(augmented_views(vs1, a1.api_key@, timestamp_ms)))
            == signature_of(
            a2.api_secret@,
            query_of(augmented_views(vs2, a2.api_key@, timestamp_ms)),
        ),
{
}

/// A signature is 64 characters, each of `0`..`9` or `a`..`f`.
pub proof fn lemma_signature_format(secret: Seq<char>, query: Seq<char>, tag: Seq<u8>)
    requires
        tag == hmac_sha256_of(vstd::utf8::encode_utf8(secret), vstd::utf8::encode_utf8(query)),
        tag.len() == 32,
    ensures
        signature_of(secret, query).len() == 64,
        forall|i: int|
            0 <= i < signature_of(secret, query).len() ==> (48 <= (
            #[trigger] signature_of(secret, query)[i] as u32) <= 57 || 97 <= (signature_of(
                secret,
                query,
            )[i] as u32) <= 102),
{
    lemma_hex_format(tag);
}

} // verus!
