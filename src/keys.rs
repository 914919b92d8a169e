//! Content-addressed, program-namespaced keys for the graph store.

use sha2::Digest;
use vstd::prelude::*;
use vstd::string::StrSliceExecFns;
use vstd::string::StringExecFns;

verus! {

/// The lower-case hexadecimal digit for a nibble.
pub open spec fn hex_digit(n: int) -> char {
    seq!['0', '1', '2', '3', '4', '5', '6', '7', '8', '9', 'a', 'b', 'c', 'd', 'e', 'f'][n]
}

/// Lower-case hexadecimal text of a byte string: two digits per byte, high nibble first.
pub open spec fn hex_lower(bytes: Seq<u8>) -> Seq<char>
    decreases bytes.len(),
{
    if bytes.len() == 0 {
        Seq::empty()
    } else {
        let b = bytes.last();
        hex_lower(bytes.drop_last()) + seq![hex_digit(b as int / 16), hex_digit(b as int % 16)]
    }
}

/// What the SHA-256 digest of a byte string is.
pub uninterp spec fn sha256_of(data: Seq<u8>) -> Seq<u8>;

/// A character that the store refuses in a key is replaced by `_`.
pub open spec fn sanitize_char(c: char) -> char {
    if c == '/' {
        '_'
    } else {
        c
    }
}

pub open spec fn sanitized(s: Seq<char>) -> Seq<char> {
    s.map_values(|c: char| sanitize_char(c))
}

/// How one character of an id is written in a key. `_` escapes, and the
/// separators `-` and `:` never appear in an escaped id.
pub open spec fn key_code(c: char) -> Seq<char> {
    if c == '/' {
        seq!['_', 's']
    } else if c == '_' {
        seq!['_', '_']
    } else if c == '-' {
        seq!['_', 'd']
    } else if c == ':' {
        seq!['_', 'c']
    } else {
        seq![c]
    }
}

/// An id written as a key: each character by its `key_code`.
pub open spec fn escaped(s: Seq<char>) -> Seq<char>
    decreases s.len(),
{
    if s.len() == 0 {
        Seq::empty()
    } else {
        key_code(s[0]) + escaped(s.drop_first())
    }
}

/// `c` does not occur in `s`.
pub open spec fn free_of(s: Seq<char>, c: char) -> bool {
    forall|k: int| 0 <= k < s.len() ==> s[k] != c
}

/// A key in the namespace of a program, made from a digest: the escaped
/// program id, `:`, and the digest in hexadecimal.
pub open spec fn namespaced(program_id: Seq<char>, digest: Seq<u8>) -> Seq<char> {
    escaped(program_id) + seq![':'] + hex_lower(digest)
}

/// The key under which the bytes `raw` of program `program_id` are stored.
pub open spec fn derived_key(program_id: Seq<char>, raw: Seq<u8>) -> Seq<char> {
    namespaced(program_id, sha256_of(raw))
}

/// Relies on hex::encode: two lower-case hexadecimal digits per byte, high nibble first.
#[verifier::external_body]
pub(crate) fn encode_hex(bytes: &[u8]) -> (r: String)
    ensures
        r@ == hex_lower(bytes@),
{
    hex::encode(bytes)
}

/// Relies on sha2::Sha256::digest: the digest of the input, 32 bytes long.
#[verifier::external_body]
fn sha256_digest(data: &[u8]) -> (r: Vec<u8>)
    ensures
        r@ == sha256_of(data@),
        r@.len() == 32,
{
    sha2::Sha256::digest(data).to_vec()
}

/// Relies on String::push: the character is appended at the end.
#[verifier::external_body]
fn push_char(s: &mut String, c: char)
    ensures
        final(s)@ == old(s)@.push(c),
{
    s.push(c);
}

#[derive(Debug, Clone, Copy, PartialEq, Eq, Structural)]
pub enum KeyError {
    /// Nothing to derive a key from.
    InvalidInput,
}

/// Replaces every `/` of `input`, which a store key cannot hold, by `_`.
pub fn sanitize_key(input: &str) -> (r: String)
    ensures
        r@ == sanitized(input@),
{
    let n = input.unicode_len();
    let mut out = String::new();
    let mut i: usize = 0;
    while i < n
        invariant
            n == input@.len(),
            i <= n,
            out@ == sanitized(input@.subrange(0, i as int)),
        decreases n - i,
    {
        let c = input.get_char(i);
        let d = if c == '/' {
            '_'
        } else {
            c
        };
        push_char(&mut out, d);
        assert(input@.subrange(0, i + 1) == input@.subrange(0, i as int).push(c));
        i = i + 1;
    }
    assert(input@.subrange(0, n as int) == input@);
    out
}

/// Writes `input` as a key: `/`, `_`, `-` and `:` become `_s`, `__`, `_d`
/// and `_c`; every other character stays. Distinct ids give distinct keys.
pub fn escape_key(input: &str) -> (r: String)
    ensures
        r@ == escaped(input@),
{
    let n = input.unicode_len();
    let mut out = String::new();
    let mut i: usize = 0;
    while i < n
        invariant
            n == input@.len(),
            i <= n,
            out@ == escaped(input@.subrange(0, i as int)),
        decreases n - i,
    {
        let c = input.get_char(i);
        if c == '/' {
            push_char(&mut out, '_');
            push_char(&mut out, 's');
        } else if c == '_' {
            push_char(&mut out, '_');
            push_char(&mut out, '_');
        } else if c == '-' {
            push_char(&mut out, '_');
            push_char(&mut out, 'd');
        } else if c == ':' {
            push_char(&mut out, '_');
            push_char(&mut out, 'c');
        } else {
            push_char(&mut out, c);
        }
        proof {
            let prev = input@.subrange(0, i as int);
            assert(input@.subrange(0, i + 1) =~= prev + seq![c]);
            lemma_escaped_concat(prev, seq![c]);
            assert(seq![c].drop_first() =~= Seq::<char>::empty());
            assert(escaped(seq![c].drop_first()) == Seq::<char>::empty());
            assert(seq![c][0] == c);
            assert(escaped(seq![c]) =~= key_code(c));
        }
        i = i + 1;
    }
    assert(input@.subrange(0, n as int) =~= input@);
    out
}

/// The key `<escaped program>:<hex of digest>`.
pub fn namespaced_key(program_id: &str, digest: &[u8]) -> (r: String)
    ensures
        r@ == namespaced(program_id@, digest@),
        r@.len() == escaped(program_id@).len() + 1 + 2 * digest@.len(),
{
    let mut key = escape_key(program_id);
    proof {
        reveal_strlit(":");
        lemma_hex_len(digest@);
    }
    key.append(":");
    let hex = encode_hex(digest);
    key.append(hex.as_str());
    key
}

/// The content-addressed key of `raw_bytes` in the namespace of `program_id`.
/// Empty input has no key.
pub fn derive_key(program_id: &str, raw_bytes: &[u8]) -> (r: Result<String, KeyError>)
    ensures
        r is Err <==> raw_bytes@.len() == 0,
        r matches Ok(k) ==> k@ == derived_key(program_id@, raw_bytes@),
        r matches Ok(k) ==> k@.len() == escaped(program_id@).len() + 65,
        r matches Err(e) ==> e == KeyError::InvalidInput,
{
    if raw_bytes.len() == 0 {
        return Err(KeyError::InvalidInput);
    }
    let digest = sha256_digest(raw_bytes);
    Ok(namespaced_key(program_id, digest.as_slice()))
}

pub proof fn lemma_hex_len(b: Seq<u8>)
    ensures
        hex_lower(b).len() == 2 * b.len(),
    decreases b.len(),
{
    if b.len() > 0 {
        lemma_hex_len(b.drop_last());
    }
}

proof fn lemma_hex_digit_injective(x: int, y: int)
    requires
        0 <= x < 16,
        0 <= y < 16,
        hex_digit(x) == hex_digit(y),
    ensures
        x == y,
{
}

/// Hexadecimal text determines the bytes it was made from.
proof fn lemma_hex_injective(a: Seq<u8>, b: Seq<u8>)
    requires
        hex_lower(a) == hex_lower(b),
    ensures
        a == b,
    decreases a.len(),
{
    lemma_hex_len(a);
    lemma_hex_len(b);
    if a.len() > 0 {
        let ha = hex_lower(a.drop_last());
        let hb = hex_lower(b.drop_last());
        let x = a.last() as int;
        let y = b.last() as int;
        lemma_hex_len(a.drop_last());
        lemma_hex_len(b.drop_last());
        let n = ha.len() as int;
        assert(hex_lower(a)[n] == hex_digit(x / 16));
        assert(hex_lower(b)[n] == hex_digit(y / 16));
        assert(hex_lower(a)[n + 1] == hex_digit(x % 16));
        assert(hex_lower(b)[n + 1] == hex_digit(y % 16));
        lemma_hex_digit_injective(x / 16, y / 16);
        lemma_hex_digit_injective(x % 16, y % 16);
        assert(hex_lower(a).subrange(0, n) =~= ha);
        assert(hex_lower(b).subrange(0, n) =~= hb);
        lemma_hex_injective(a.drop_last(), b.drop_last());
        assert(a =~= a.drop_last().push(a.last()));
        assert(b =~= b.drop_last().push(b.last()));
    }
}

/// Escaping distributes over concatenation.
pub proof fn lemma_escaped_concat(a: Seq<char>, b: Seq<char>)
    ensures
        escaped(a + b) == escaped(a) + escaped(b),
    decreases a.len(),
{
    if a.len() == 0 {
        assert(a + b =~= b);
        assert(escaped(a) + escaped(b) =~= escaped(b));
    } else {
        assert((a + b).drop_first() =~= a.drop_first() + b);
        lemma_escaped_concat(a.drop_first(), b);
        assert(key_code(a[0]) + (escaped(a.drop_first()) + escaped(b)) =~= key_code(a[0])
            + escaped(a.drop_first()) + escaped(b));
    }
}

/// Escaped ids hold neither separator.
pub proof fn lemma_escaped_separators(s: Seq<char>)
    ensures
        free_of(escaped(s), '-'),
        free_of(escaped(s), ':'),
    decreases s.len(),
{
    if s.len() > 0 {
        lemma_escaped_separators(s.drop_first());
        let e = escaped(s);
        let code = key_code(s[0]);
        let rest = escaped(s.drop_first());
        assert forall|k: int| 0 <= k < e.len() implies e[k] != '-' && e[k] != ':' by {
            if k >= code.len() {
                assert(e[k] == rest[k - code.len()]);
            }
        }
    }
}

/// Hexadecimal text holds neither separator.
pub proof fn lemma_hex_separators(b: Seq<u8>)
    ensures
        free_of(hex_lower(b), '-'),
        free_of(hex_lower(b), ':'),
    decreases b.len(),
{
    if b.len() > 0 {
        lemma_hex_separators(b.drop_last());
        let h = hex_lower(b);
        let front = hex_lower(b.drop_last());
        let x = b.last() as int;
        assert forall|k: int| 0 <= k < h.len() implies h[k] != '-' && h[k] != ':' by {
            if k < front.len() {
                assert(h[k] == front[k]);
            } else if k == front.len() {
                assert(h[k] == hex_digit(x / 16));
            } else {
                assert(h[k] == hex_digit(x % 16));
            }
        }
    }
}

/// Distinct ids are escaped to distinct keys.
pub proof fn lemma_escaped_injective(a: Seq<char>, b: Seq<char>)
    requires
        escaped(a) == escaped(b),
    ensures
        a == b,
    decreases a.len(),
{
    if a.len() == 0 {
        if b.len() > 0 {
            assert(escaped(b).len() > 0);
        }
        assert(a =~= b);
    } else {
        if b.len() == 0 {
            assert(escaped(a).len() > 0);
        }
        let ca = a[0];
        let cb = b[0];
        let e = escaped(a);
        assert(e[0] == key_code(ca)[0]);
        assert(e[0] == key_code(cb)[0]);
        if key_code(ca).len() == 2 && key_code(cb).len() == 2 {
            assert(e[1] == key_code(ca)[1]);
            assert(escaped(b)[1] == key_code(cb)[1]);
        }
        assert(ca == cb);
        let n = key_code(ca).len() as int;
        assert(escaped(a.drop_first()) =~= e.subrange(n, e.len() as int));
        assert(escaped(b.drop_first()) =~= escaped(b).subrange(n, e.len() as int));
        lemma_escaped_injective(a.drop_first(), b.drop_first());
        assert(a =~= seq![ca] + a.drop_first());
        assert(b =~= seq![cb] + b.drop_first());
    }
}

/// Two texts joined by a separator that neither left part holds split back
/// into the same parts.
pub proof fn lemma_split_at(a: Seq<char>, b: Seq<char>, c: Seq<char>, d: Seq<char>, sep: char)
    requires
        a + seq![sep] + b == c + seq![sep] + d,
        free_of(a, sep),
        free_of(c, sep),
    ensures
        a == c,
        b == d,
{
    let x = a + seq![sep] + b;
    let y = c + seq![sep] + d;
    if a.len() < c.len() {
        assert(x[a.len() as int] == sep);
        assert(y[a.len() as int] == c[a.len() as int]);
    }
    if c.len() < a.len() {
        assert(y[c.len() as int] == sep);
        assert(x[c.len() as int] == a[c.len() as int]);
    }
    assert(a =~= x.subrange(0, a.len() as int));
    assert(c =~= y.subrange(0, c.len() as int));
    assert(b =~= x.subrange(a.len() as int + 1, x.len() as int));
    assert(d =~= y.subrange(c.len() as int + 1, y.len() as int));
}

/// Derived keys hold no `-`.
pub proof fn lemma_derived_key_separators(p: Seq<char>, b: Seq<u8>)
    ensures
        free_of(derived_key(p, b), '-'),
{
    lemma_escaped_separators(p);
    lemma_hex_separators(sha256_of(b));
    let k = derived_key(p, b);
    let e = escaped(p);
    assert forall|j: int| 0 <= j < k.len() implies k[j] != '-' by {
        if j < e.len() {
            assert(k[j] == e[j]);
        } else if j > e.len() {
            assert(k[j] == hex_lower(sha256_of(b))[j - e.len() - 1]);
        }
    }
}

/// Equal derived keys come from the same program and bytes of the same digest.
pub proof fn lemma_derived_key_injective(p1: Seq<char>, b1: Seq<u8>, p2: Seq<char>, b2: Seq<u8>)
    requires
        derived_key(p1, b1) == derived_key(p2, b2),
    ensures
        p1 == p2,
        sha256_of(b1) == sha256_of(b2),
{
    lemma_escaped_separators(p1);
    lemma_escaped_separators(p2);
    lemma_split_at(
        escaped(p1),
        hex_lower(sha256_of(b1)),
        escaped(p2),
        hex_lower(sha256_of(b2)),
        ':',
    );
    lemma_escaped_injective(p1, p2);
    lemma_hex_injective(sha256_of(b1), sha256_of(b2));
}

/// Keys are a function of the program and the bytes: the same input always
/// gives the same key; keys of different programs differ; and within one
/// program, inputs whose digests differ (which the hash's collision
/// resistance gives for different inputs) get different keys.
pub proof fn lemma_derive_deterministic(p: Seq<char>, b1: Seq<u8>, b2: Seq<u8>)
    ensures
        b1 == b2 ==> derived_key(p, b1) == derived_key(p, b2),
        sha256_of(b1) != sha256_of(b2) ==> derived_key(p, b1) != derived_key(p, b2),
        forall|q: Seq<char>| q != p ==> derived_key(p, b1) != #[trigger] derived_key(q, b2),
{
    if derived_key(p, b1) == derived_key(p, b2) {
        lemma_derived_key_injective(p, b1, p, b2);
    }
    assert forall|q: Seq<char>| q != p implies derived_key(p, b1) != #[trigger] derived_key(q, b2) by {
        if derived_key(p, b1) == derived_key(q, b2) {
            lemma_derived_key_injective(p, b1, q, b2);
        }
    }
}

} // verus!
