//! Batched lookups against the content API: the keys go as one JSON array per
//! request, form-encoded into the query string, at most `MAX_REQUEST_SIZE` per request.
use vstd::prelude::*;
use vstd::utf8::encode_utf8;

use crate::text::join_spec;

verus! {

/// The most keys sent in one request.
pub const MAX_REQUEST_SIZE: usize = 800;

/// A lower-case hexadecimal digit.
pub open spec fn lower_hex(d: int) -> char {
    if d < 10 {
        (('0' as int) + d) as char
    } else {
        (('a' as int) + d - 10) as char
    }
}

/// An upper-case hexadecimal digit.
pub open spec fn upper_hex(d: int) -> char {
    if d < 10 {
        (('0' as int) + d) as char
    } else {
        (('A' as int) + d - 10) as char
    }
}

/// How JSON writes a character inside a string: quote, backslash and the control
/// characters are escaped (`\b`, `\t`, `\n`, `\f`, `\r`, else `\u00xx`), every other
/// character stands for itself.
pub open spec fn json_escape_char(c: char) -> Seq<char> {
    if c == '"' {
        seq!['\\', '"']
    } else if c == '\\' {
        seq!['\\', '\\']
    } else if c == '\u{8}' {
        seq!['\\', 'b']
    } else if c == '\t' {
        seq!['\\', 't']
    } else if c == '\n' {
        seq!['\\', 'n']
    } else if c == '\u{c}' {
        seq!['\\', 'f']
    } else if c == '\r' {
        seq!['\\', 'r']
    } else if (c as int) < 0x20 {
        seq!['\\', 'u', '0', '0', lower_hex((c as int) / 16), lower_hex((c as int) % 16)]
    } else {
        seq![c]
    }
}

/// The escaped characters of a string.
pub open spec fn json_escape(s: Seq<char>) -> Seq<char>
    decreases s.len(),
{
    if s.len() == 0 {
        Seq::empty()
    } else {
        json_escape(s.drop_last()) + json_escape_char(s.last())
    }
}

/// A JSON string literal.
pub open spec fn json_string(s: Seq<char>) -> Seq<char> {
    seq!['"'] + json_escape(s) + seq!['"']
}

/// A compact JSON array of strings.
pub open spec fn json_string_array(items: Seq<Seq<char>>) -> Seq<char> {
    seq!['['] + join_spec(items.map_values(|s: Seq<char>| json_string(s)), seq![',']) + seq![']']
}

/// A byte that form encoding leaves as it is: an ASCII letter or digit, or one of `*-._`.
pub open spec fn form_unchanged(b: u8) -> bool {
    b == 0x2a || b == 0x2d || b == 0x2e || b == 0x5f || (0x30 <= b <= 0x39) || (0x41 <= b <= 0x5a) || (0x61
        <= b <= 0x7a)
}

/// How form encoding writes a byte: itself, `+` for a space, else `%` and two
/// upper-case hexadecimal digits.
pub open spec fn form_byte(b: u8) -> Seq<char> {
    if form_unchanged(b) {
        seq![b as char]
    } else if b == 0x20 {
        seq!['+']
    } else {
        seq!['%', upper_hex((b as int) / 16), upper_hex((b as int) % 16)]
    }
}

/// The form encoding of bytes.
pub open spec fn form_serialized(bytes: Seq<u8>) -> Seq<char>
    decreases bytes.len(),
{
    if bytes.len() == 0 {
        Seq::empty()
    } else {
        form_serialized(bytes.drop_last()) + form_byte(bytes.last())
    }
}

/// The views of strings.
pub open spec fn texts(v: Seq<String>) -> Seq<Seq<char>> {
    v.map_values(|s: String| s@)
}

/// `serde_json::to_string` of a list of strings: a compact JSON array of the strings,
/// each quoted and escaped as `json_escape_char` says. Serializing strings cannot fail.
#[verifier::external_body]
fn json_string_list(values: &[String]) -> (r: String)
    ensures
        r@ == json_string_array(texts(values@)),
{
    serde_json::to_string(values).unwrap_or_default()
}

/// `url::form_urlencoded::byte_serialize` of bytes, collected into a string: each byte
/// written as `form_byte` says.
#[verifier::external_body]
fn form_byte_serialize(bytes: &[u8]) -> (r: String)
    ensures
        r@ == form_serialized(bytes@),
{
    url::form_urlencoded::byte_serialize(bytes).collect()
}

/// The query value for a list of keys: their JSON array, form-encoded (so that a `+`
/// in a key survives as `%2B`).
pub open spec fn query_value_spec(keys: Seq<Seq<char>>) -> Seq<char> {
    form_serialized(encode_utf8(json_string_array(keys)))
}

/// Encodes a list of keys as one query value.
pub fn encode_json_query_value(values: &[String]) -> (r: String)
    ensures
        r@ == query_value_spec(texts(values@)),
{
    let json = json_string_list(values);
    let bytes = json.as_str().as_bytes();
    form_byte_serialize(bytes)
}

/// The keys of request `b`: the `b`-th run of at most `MAX_REQUEST_SIZE` keys.
pub open spec fn batch_keys(keys: Seq<Seq<char>>, b: int) -> Seq<Seq<char>> {
    let start = b * MAX_REQUEST_SIZE;
    let end = if start + MAX_REQUEST_SIZE < keys.len() {
        start + MAX_REQUEST_SIZE
    } else {
        keys.len() as int
    };
    keys.subrange(start, end)
}

/// How many requests `n` keys take.
pub open spec fn batch_count(n: nat) -> nat {
    ((n + MAX_REQUEST_SIZE - 1) / (MAX_REQUEST_SIZE as int)) as nat
}

/// The addresses that fetch `keys` in batches: `api_url`, `url`, and the encoded keys of
/// each run of at most `MAX_REQUEST_SIZE` keys, in order.
pub fn batched_query_urls(api_url: &str, url: &str, keys: &Vec<String>) -> (r: Vec<String>)
    ensures
        r@.len() == batch_count(keys@.len()),
        forall|b: int|
            0 <= b < r@.len() ==> #[trigger] r@[b]@ == api_url@ + url@ + query_value_spec(
                batch_keys(texts(keys@), b),
            ),
{
    let ghost views = texts(keys@);
    let mut r: Vec<String> = Vec::new();
    let mut start: usize = 0;
    let mut b: usize = 0;
    while start < keys.len()
        invariant
            views == texts(keys@),
            start <= keys.len(),
            start < keys.len() ==> start == b * MAX_REQUEST_SIZE,
            start == keys.len() ==> b == batch_count(keys@.len()),
            r@.len() == b,
            forall|k: int|
                0 <= k < b ==> #[trigger] r@[k]@ == api_url@ + url@ + query_value_spec(batch_keys(views, k)),
        decreases keys.len() - start,
    {
        let end = if keys.len() - start > MAX_REQUEST_SIZE {
            start + MAX_REQUEST_SIZE
        } else {
            keys.len()
        };
        let chunk = vstd::slice::slice_subrange(keys.as_slice(), start, end);
        assert(texts(chunk@) =~= batch_keys(views, b as int));
        let encoded = encode_json_query_value(chunk);
        let mut u = crate::text::to_owned_string(api_url);
        u.append(url);
        u.append(encoded.as_str());
        r.push(u);
        proof {
            assert(r@[b as int]@ == api_url@ + url@ + query_value_spec(batch_keys(views, b as int)));
        }
        proof {
            if end == keys.len() {
                let n = keys.len() as int;
                let bb = b as int;
                assert((n + 799) / 800 == bb + 1) by (nonlinear_arith)
                    requires
                        bb * 800 < n,
                        n <= bb * 800 + 800,
                ;
            }
        }
        b = b + 1;
        start = end;
    }
    proof {
        if keys.len() == 0 {
            assert(batch_count(0) == 0);
        }
    }
    r
}

/// The keys of the first `n` requests, one run after another.
pub open spec fn concat_batches(keys: Seq<Seq<char>>, n: nat) -> Seq<Seq<char>>
    decreases n,
{
    if n == 0 {
        Seq::empty()
    } else {
        concat_batches(keys, (n - 1) as nat) + batch_keys(keys, n - 1)
    }
}

proof fn lemma_concat_batches_prefix(keys: Seq<Seq<char>>, m: nat)
    requires
        m <= batch_count(keys.len()),
    ensures
        concat_batches(keys, m) == keys.take(
            if m * MAX_REQUEST_SIZE < keys.len() {
                m * MAX_REQUEST_SIZE
            } else {
                keys.len() as int
            },
        ),
    decreases m,
{
    if m == 0 {
        assert(keys.take(0) =~= Seq::<Seq<char>>::empty());
    } else {
        let n = keys.len() as int;
        let mm = m as int;
        assert((mm - 1) * 800 < n) by (nonlinear_arith)
            requires
                1 <= mm,
                mm <= (n + 799) / 800,
                0 <= n,
        ;
        assert((mm - 1) * 800 + 800 == mm * 800) by (nonlinear_arith);
        lemma_concat_batches_prefix(keys, (m - 1) as nat);
        let start = (mm - 1) * 800;
        let end = if start + 800 < n {
            start + 800
        } else {
            n
        };
        assert(keys.take(start) + keys.subrange(start, end) =~= keys.take(end));
    }
}

/// The requests together carry every key once, in order, and none carries more than
/// `MAX_REQUEST_SIZE` keys or none at all.
pub proof fn law_batches_cover_keys(keys: Seq<Seq<char>>)
    ensures
        concat_batches(keys, batch_count(keys.len())) == keys,
        forall|b: int|
            0 <= b < batch_count(keys.len()) ==> 0 < #[trigger] batch_keys(keys, b).len() <= MAX_REQUEST_SIZE,
{
    let n = keys.len() as int;
    let c = batch_count(keys.len()) as int;
    assert(c * 800 >= n) by (nonlinear_arith)
        requires
            c == (n + 799) / 800,
            0 <= n,
    ;
    lemma_concat_batches_prefix(keys, batch_count(keys.len()));
    assert(keys.take(n) =~= keys);
    assert forall|b: int| 0 <= b < c implies 0 < #[trigger] batch_keys(keys, b).len() <= MAX_REQUEST_SIZE by {
        assert(b * 800 < n) by (nonlinear_arith)
            requires
                0 <= b,
                b < c,
                c == (n + 799) / 800,
                0 <= n,
        ;
        assert(0 <= b * 800) by (nonlinear_arith)
            requires
                0 <= b,
        ;
    }
}

} // verus!
