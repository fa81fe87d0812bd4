//! OS-keyed storage envelopes for the Discord token.
//!
//! The token never sits in plaintext config. config.toml keeps an
//! envelope naming where the secret lives:
//!
//! - `dpapi:<base64>`: a Windows DPAPI blob (user-scoped), inline;
//! - `keychain:1`: the macOS Keychain item holds it;
//! - `file:1`: a 0600 `token.txt` next to config.toml (Linux);
//! - anything else: a legacy plaintext token, passed through so the
//!   caller can migrate it.
//!
//! The OS calls (DPAPI, Keychain, the token file) belong to the app; this
//! module builds and reads the envelopes.
use vstd::prelude::*;
use base64::Engine;
use crate::text::{chars_of, has_prefix, is_ws, str_eq, str_starts_with, string_of, sub_chars, trim, trim_chars};

verus! {

#[verifier::external_type_specification]
#[verifier::external_body]
pub struct ExDecodeError(base64::DecodeError);

#[verifier::external_type_specification]
#[verifier::external_body]
pub struct ExFromUtf8Error(std::string::FromUtf8Error);

/// Where the sealed token lives.
#[derive(Debug, Clone, Copy, PartialEq, Eq, Structural)]
pub enum Store {
    /// Windows DPAPI blob stored base64 in config.toml.
    Dpapi,
    /// macOS Keychain; config.toml only stores the marker.
    Keychain,
    /// 0600 token file next to config.toml.
    File,
}

pub open spec fn prefix_spec(s: Store) -> Seq<char> {
    match s {
        Store::Dpapi => "dpapi"@,
        Store::Keychain => "keychain"@,
        Store::File => "file"@,
    }
}

pub open spec fn from_marker_spec(m: Seq<char>) -> Option<Store> {
    if m == "dpapi"@ {
        Some(Store::Dpapi)
    } else if m == "keychain"@ {
        Some(Store::Keychain)
    } else if m == "file"@ {
        Some(Store::File)
    } else {
        None
    }
}

/// The store each OS uses (`std::env::consts::OS` names).
pub open spec fn store_for_os(os: Seq<char>) -> Store {
    if os == "windows"@ {
        Store::Dpapi
    } else if os == "macos"@ {
        Store::Keychain
    } else {
        Store::File
    }
}

impl Store {
    pub fn envelope_prefix(self) -> (r: &'static str)
        ensures
            r@ == prefix_spec(self),
    {
        proof {
            reveal_strlit("dpapi");
            reveal_strlit("keychain");
            reveal_strlit("file");
        }
        match self {
            Store::Dpapi => "dpapi",
            Store::Keychain => "keychain",
            Store::File => "file",
        }
    }

    /// Marker written into config.toml (`token_store = "keychain"`).
    pub fn marker(self) -> (r: &'static str)
        ensures
            r@ == prefix_spec(self),
    {
        self.envelope_prefix()
    }

    pub fn from_marker(s: &str) -> (r: Option<Store>)
        ensures
            r == from_marker_spec(s@),
    {
        if str_eq(s, "dpapi") {
            Some(Store::Dpapi)
        } else if str_eq(s, "keychain") {
            Some(Store::Keychain)
        } else if str_eq(s, "file") {
            Some(Store::File)
        } else {
            None
        }
    }

    /// The store for an OS name as `std::env::consts::OS` spells it.
    pub fn for_os(os: &str) -> (r: Store)
        ensures
            r == store_for_os(os@),
    {
        if str_eq(os, "windows") {
            Store::Dpapi
        } else if str_eq(os, "macos") {
            Store::Keychain
        } else {
            Store::File
        }
    }
}

/// Every store's marker reads back as that store.
pub proof fn law_marker_round_trip(s: Store)
    ensures
        from_marker_spec(prefix_spec(s)) == Some(s),
{
    reveal_strlit("dpapi");
    reveal_strlit("keychain");
    reveal_strlit("file");
    assert("keychain"@.len() != "dpapi"@.len());
    assert("file"@.len() != "dpapi"@.len());
    assert("file"@.len() != "keychain"@.len());
}

/// What a stored config value says about the token.
#[derive(Debug, PartialEq, Eq)]
pub enum Envelope {
    /// A DPAPI blob, base64 (surrounding whitespace trimmed).
    Dpapi(String),
    /// The Keychain holds the token.
    Keychain,
    /// The token file holds the token.
    File,
    /// A legacy plaintext token.
    Legacy(String),
}

#[derive(Debug)]
pub enum SecretError {
    /// The DPAPI blob is not valid base64.
    Base64(base64::DecodeError),
    /// The unsealed bytes are not UTF-8.
    Utf8(std::string::FromUtf8Error),
}

pub open spec fn envelope_spec(stored: Seq<char>) -> EnvelopeV {
    if has_prefix(stored, "dpapi:"@) {
        EnvelopeV::Dpapi(trim(stored.subrange(6, stored.len() as int)))
    } else if has_prefix(stored, "keychain:"@) {
        EnvelopeV::Keychain
    } else if has_prefix(stored, "file:"@) {
        EnvelopeV::File
    } else {
        EnvelopeV::Legacy(stored)
    }
}

pub enum EnvelopeV {
    Dpapi(Seq<char>),
    Keychain,
    File,
    Legacy(Seq<char>),
}

pub open spec fn envelope_view(e: Envelope) -> EnvelopeV {
    match e {
        Envelope::Dpapi(s) => EnvelopeV::Dpapi(s@),
        Envelope::Keychain => EnvelopeV::Keychain,
        Envelope::File => EnvelopeV::File,
        Envelope::Legacy(s) => EnvelopeV::Legacy(s@),
    }
}

/// Reads a stored config value (blob or marker).
pub fn parse_envelope(stored: &str) -> (r: Envelope)
    ensures
        envelope_view(r) == envelope_spec(stored@),
{
    proof {
        reveal_strlit("dpapi:");
        reveal_strlit("keychain:");
        reveal_strlit("file:");
    }
    if str_starts_with(stored, "dpapi:") {
        let cs = chars_of(stored);
        let rest = sub_chars(cs.as_slice(), 6, cs.len());
        let t = trim_chars(rest.as_slice());
        Envelope::Dpapi(string_of(t.as_slice()))
    } else if str_starts_with(stored, "keychain:") {
        Envelope::Keychain
    } else if str_starts_with(stored, "file:") {
        Envelope::File
    } else {
        Envelope::Legacy(stored.to_string())
    }
}

/// What `base64::engine::general_purpose::STANDARD.decode` returns for a
/// text (`None` when it reports an error).
pub uninterp spec fn base64_standard_decode(s: Seq<char>) -> Option<Seq<u8>>;

/// What `STANDARD.encode` returns for some bytes.
pub uninterp spec fn base64_standard_encode(b: Seq<u8>) -> Seq<char>;

/// A character of the standard base64 alphabet (with `=` padding).
pub open spec fn is_b64_char(c: char) -> bool {
    ('A' <= c && c <= 'Z') || ('a' <= c && c <= 'z') || ('0' <= c && c <= '9') || c == '+' || c == '/' || c == '='
}

/// What `String::from_utf8` returns for some bytes (`None` on invalid UTF-8).
pub uninterp spec fn utf8_decode(b: Seq<u8>) -> Option<Seq<char>>;

/// `STANDARD.decode(s)`: its result is named by `base64_standard_decode`.
#[verifier::external_body]
fn b64_decode(s: &str) -> (r: Result<Vec<u8>, base64::DecodeError>)
    ensures
        r matches Ok(v) ==> base64_standard_decode(s@) == Some(v@),
        r is Err <==> base64_standard_decode(s@) is None,
{
    base64::engine::general_purpose::STANDARD.decode(s)
}

/// `STANDARD.encode(b)`: its result is named by `base64_standard_encode`.
/// Claimed, as the crate documents: the output uses only the standard
/// alphabet and `=`, and decoding it gives the input back.
#[verifier::external_body]
fn b64_encode(b: &[u8]) -> (r: String)
    ensures
        r@ == base64_standard_encode(b@),
        forall|i: int| 0 <= i < r@.len() ==> is_b64_char(#[trigger] r@[i]),
        base64_standard_decode(r@) == Some(b@),
{
    base64::engine::general_purpose::STANDARD.encode(b)
}

/// `String::from_utf8(b)`: its result is named by `utf8_decode`.
#[verifier::external_body]
fn from_utf8(b: Vec<u8>) -> (r: Result<String, std::string::FromUtf8Error>)
    ensures
        r matches Ok(s) ==> utf8_decode(b@) == Some(s@),
        r is Err <==> utf8_decode(b@) is None,
{
    String::from_utf8(b)
}

/// The DPAPI blob inside a `dpapi:` envelope.
pub fn dpapi_blob(b64: &str) -> (r: Result<Vec<u8>, SecretError>)
    ensures
        r matches Ok(v) ==> base64_standard_decode(b64@) == Some(v@),
        r is Err <==> base64_standard_decode(b64@) is None,
{
    match b64_decode(b64) {
        Ok(v) => Ok(v),
        Err(e) => Err(SecretError::Base64(e)),
    }
}

/// The token an unsealed DPAPI blob holds.
pub fn token_from_bytes(plain: Vec<u8>) -> (r: Result<String, SecretError>)
    ensures
        r matches Ok(s) ==> utf8_decode(plain@) == Some(s@),
        r is Err <==> utf8_decode(plain@) is None,
{
    match from_utf8(plain) {
        Ok(s) => Ok(s),
        Err(e) => Err(SecretError::Utf8(e)),
    }
}

/// The token read from the token file (surrounding whitespace trimmed).
pub fn token_from_file_text(text: &str) -> (r: String)
    ensures
        r@ == trim(text@),
{
    let cs = chars_of(text);
    let t = trim_chars(cs.as_slice());
    string_of(t.as_slice())
}

/// The config value for a token sealed in `store`; `enc` is the base64
/// text of the DPAPI blob.
pub open spec fn sealed_envelope(store: Store, enc: Seq<char>) -> Seq<char> {
    match store {
        Store::Dpapi => "dpapi:"@ + enc,
        Store::Keychain => "keychain:1"@,
        Store::File => "file:1"@,
    }
}

pub open spec fn sealed_spec(store: Store, blob: Seq<u8>) -> Seq<char> {
    sealed_envelope(store, base64_standard_encode(blob))
}

/// The config value that records a sealed token: the inline DPAPI blob,
/// or the marker of the store that holds it.
pub fn sealed_value(store: Store, blob: &[u8]) -> (r: String)
    ensures
        r@ == sealed_spec(store, blob@),
{
    match store {
        Store::Dpapi => {
            let mut s = String::new();
            crate::text::push_str(&mut s, "dpapi:");
            let enc = b64_encode(blob);
            crate::text::push_str(&mut s, enc.as_str());
            proof { reveal_strlit("dpapi:"); }
            s
        }
        Store::Keychain => "keychain:1".to_string(),
        Store::File => "file:1".to_string(),
    }
}

pub proof fn lemma_trim_no_edge_ws(s: Seq<char>)
    requires
        s.len() > 0 ==> !is_ws(s[0]) && !is_ws(s.last()),
    ensures
        trim(s) == s,
{
}

/// Reading back a sealed envelope names the store it was sealed in and,
/// for DPAPI, gives the very base64 text that was written (which
/// `dpapi_blob` decodes back to the sealed blob).
pub proof fn law_seal_then_open(store: Store, enc: Seq<char>)
    requires
        forall|i: int| 0 <= i < enc.len() ==> is_b64_char(#[trigger] enc[i]),
    ensures
        envelope_spec(sealed_envelope(store, enc)) == (match store {
            Store::Dpapi => EnvelopeV::Dpapi(enc),
            Store::Keychain => EnvelopeV::Keychain,
            Store::File => EnvelopeV::File,
        }),
{
    reveal_strlit("dpapi:");
    reveal_strlit("keychain:");
    reveal_strlit("file:");
    reveal_strlit("keychain:1");
    reveal_strlit("file:1");
    if store == Store::Dpapi {
        let v = "dpapi:"@ + enc;
        assert(v.subrange(0, 6) =~= "dpapi:"@);
        assert(v.subrange(6, v.len() as int) =~= enc);
        if enc.len() > 0 {
            assert(is_b64_char(enc[0]));
            assert(is_b64_char(enc[enc.len() - 1]));
        }
        lemma_trim_no_edge_ws(enc);
    } else if store == Store::Keychain {
        assert("keychain:1"@.subrange(0, 9) =~= "keychain:"@);
        assert("keychain:1"@.subrange(0, 6)[0] != "dpapi:"@[0]);
    } else {
        assert("file:1"@.subrange(0, 5) =~= "file:"@);
        assert("file:1"@.subrange(0, 6)[0] != "dpapi:"@[0]);
        assert(!has_prefix("file:1"@, "dpapi:"@));
        assert(!has_prefix("file:1"@, "keychain:"@));
    }
}

/// A value in none of the envelope formats is a legacy plaintext token
/// and passes through unchanged.
pub proof fn law_legacy_passes_through(stored: Seq<char>)
    requires
        !has_prefix(stored, "dpapi:"@),
        !has_prefix(stored, "keychain:"@),
        !has_prefix(stored, "file:"@),
    ensures
        envelope_spec(stored) == EnvelopeV::Legacy(stored),
{
}

} // verus!
