//! The Kingdee skill store API: its address, its token, and the list it
//! answers searches with.
use vstd::prelude::*;

use crate::error::SkillError;
use crate::json;
use crate::json::JsonValue;
use crate::number;
use crate::text;
use crate::text::CharClass;

verus! {

/// A skill as the Kingdee store lists it.
pub struct SkillInfo {
    pub id: i64,
    pub name: String,
    pub display_name: Option<String>,
    pub description: Option<String>,
    pub current_version: Option<String>,
    pub version: Option<String>,
}

/// The address of the store, without trailing `/`.
pub fn normalize_api_base(base: &str) -> (out: String)
    ensures
        out@ == text::strip_end(base@, CharClass::Exactly('/')),
{
    let c = text::chars_of(base);
    let mut j = c.len();
    assert(c@.take(j as int) =~= c@);
    while j > 0 && c[j - 1] == '/'
        invariant
            j <= c.len(),
            text::strip_end(c@, CharClass::Exactly('/')) == text::strip_end(
                c@.take(j as int),
                CharClass::Exactly('/'),
            ),
        decreases j,
    {
        assert(c@.take(j as int).drop_last() =~= c@.take(j - 1));
        j = j - 1;
    }
    let out = text::copy_range(&c, 0, j);
    assert(out@ =~= c@.take(j as int));
    text::string_from(&out)
}

/// Each byte combined with `key` by exclusive or.
pub open spec fn xor_bytes(data: Seq<u8>, key: u8) -> Seq<u8> {
    data.map_values(|b: u8| b ^ key)
}

/// `std::str::from_utf8`: the text of valid UTF-8 bytes, `None` for any
/// other bytes (as the standard library documents it).
#[verifier::external_body]
fn utf8_text(b: &[u8]) -> (r: Option<String>)
    ensures
        r is Some <==> vstd::utf8::valid_utf8(b@),
        r matches Some(s) ==> s@ == vstd::utf8::decode_utf8(b@),
{
    match std::str::from_utf8(b) {
        Ok(s) => Some(s.to_string()),
        Err(_) => None,
    }
}

/// The built-in token: the bytes combined with `key`, read as UTF-8; empty
/// when they are not valid UTF-8.
pub fn decode_token(data: &[u8], key: u8) -> (out: String)
    ensures
        out@ == (if vstd::utf8::valid_utf8(xor_bytes(data@, key)) {
            vstd::utf8::decode_utf8(xor_bytes(data@, key))
        } else {
            Seq::empty()
        }),
{
    let mut bytes: Vec<u8> = Vec::new();
    let mut i: usize = 0;
    while i < data.len()
        invariant
            i <= data.len(),
            bytes@ == xor_bytes(data@.take(i as int), key),
        decreases data.len() - i,
    {
        bytes.push(data[i] ^ key);
        assert(xor_bytes(data@.take(i + 1), key) =~= xor_bytes(data@.take(i as int), key).push(
            data@[i as int] ^ key,
        ));
        i = i + 1;
    }
    assert(data@.take(i as int) =~= data@);
    match utf8_text(bytes.as_slice()) {
        Some(s) => s,
        None => String::new(),
    }
}

/// Combining with the key twice gives the bytes back, so the built-in token
/// decodes to the text whose UTF-8 bytes were combined with the key.
pub proof fn lemma_decode_obfuscated(t: Seq<char>, key: u8)
    ensures
        xor_bytes(xor_bytes(vstd::utf8::encode_utf8(t), key), key) == vstd::utf8::encode_utf8(t),
        vstd::utf8::valid_utf8(xor_bytes(xor_bytes(vstd::utf8::encode_utf8(t), key), key)),
        vstd::utf8::decode_utf8(xor_bytes(xor_bytes(vstd::utf8::encode_utf8(t), key), key)) == t,
{
    let b = vstd::utf8::encode_utf8(t);
    let x = xor_bytes(xor_bytes(b, key), key);
    assert forall|i: int| 0 <= i < b.len() implies x[i] == b[i] by {
        let c = b[i];
        assert((c ^ key) ^ key == c) by (bit_vector);
    }
    assert(x =~= b);
    vstd::utf8::encode_utf8_valid_utf8(t);
    vstd::utf8::encode_utf8_decode_utf8(t);
}

/// The `list` under `data` of a search answer.
pub open spec fn spec_data_list(v: JsonValue) -> Option<JsonValue> {
    match json::json_get(v, "data"@) {
        Some(d) => json::json_get(d, "list"@),
        None => None,
    }
}

/// The `list` under `data` of a search answer; an error when missing.
pub fn data_list(v: &JsonValue) -> (r: Result<&JsonValue, SkillError>)
    ensures
        match spec_data_list(*v) {
            Some(l) => r matches Ok(x) && *x == l,
            None => r matches Err(SkillError::MissingDataList),
        },
{
    match json::get(v, "data") {
        Some(d) => match json::get(d, "list") {
            Some(l) => Ok(l),
            None => Err(SkillError::MissingDataList),
        },
        None => Err(SkillError::MissingDataList),
    }
}

/// The query of a search: the page, the page size, and the keyword when
/// one is given.
pub fn search_params(keyword: Option<String>, page: u32, page_size: u32) -> (out: Vec<(&'static str, String)>)
    ensures
        out@.len() == (if keyword is Some { 3int } else { 2int }),
        out@[0].0@ == "page"@ && out@[0].1@ == number::decimal(page as nat),
        out@[1].0@ == "pageSize"@ && out@[1].1@ == number::decimal(page_size as nat),
        keyword matches Some(k) ==> out@[2].0@ == "keyword"@ && out@[2].1@ == k@,
{
    let mut out = vec![
        ("page", number::u64_to_decimal(page as u64)),
        ("pageSize", number::u64_to_decimal(page_size as u64)),
    ];
    match keyword {
        Some(k) => {
            out.push(("keyword", k));
        },
        None => {},
    }
    out
}

/// The query of a download: the skill id, the version and the token.
pub fn download_params(id: i64, version: &str, token: &str) -> (out: Vec<(&'static str, String)>)
    ensures
        out@.len() == 3,
        out@[0].0@ == "id"@ && out@[0].1@ == number::signed_decimal(id as int),
        out@[1].0@ == "version"@ && out@[1].1@ == version@,
        out@[2].0@ == "token"@ && out@[2].1@ == token@,
{
    vec![
        ("id", number::i64_to_decimal(id)),
        ("version", text::owned(version)),
        ("token", text::owned(token)),
    ]
}

} // verus!
