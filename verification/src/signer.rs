//! Signature-version-4 request signing for an object-store backend.
//!
//! A signer derives a signing key from the secret key, date, region and
//! service, hashes a canonical form of the request, and assembles the
//! `authorization` header value together with the body digest and timestamp
//! headers. The two digests (SHA-256 and HMAC-SHA256) come from an outside
//! cryptography crate and are treated as named functions of their inputs; the
//! byte-exact assembly of every signed string is verified around them.

use crate::types::Handle;
use vstd::prelude::*;
use vstd::string::StringExecFns;
use vstd::utf8::encode_utf8;

verus! {

/// The connection settings of an object-store backend.
pub struct Configuration {
    pub access_key: String,
    pub secret_key: String,
    pub region: String,
    pub scheme: String,
    pub host: String,
}

/// What HMAC-SHA256 computes for a key and a message; a function of its two
/// inputs alone.
pub uninterp spec fn hmac_sha256(key: Seq<u8>, data: Seq<u8>) -> Seq<u8>;

/// What SHA-256 computes for a message; a function of its input alone.
pub uninterp spec fn sha256(data: Seq<u8>) -> Seq<u8>;

/// The lowercase hex digit of a nibble.
pub open spec fn hex_digit(n: u8) -> char {
    if n < 10 {
        (48 + n) as char
    } else {
        (87 + n) as char
    }
}

/// The lowercase hex encoding of a byte string: two digits for each byte,
/// high nibble first.
pub open spec fn hex_of(data: Seq<u8>) -> Seq<char>
    decreases data.len(),
{
    if data.len() == 0 {
        Seq::empty()
    } else {
        hex_of(data.drop_last()).push(hex_digit(data.last() / 16)).push(
            hex_digit(data.last() % 16),
        )
    }
}

/// Two hex digits for each byte.
pub proof fn lemma_hex_of_len(data: Seq<u8>)
    ensures
        hex_of(data).len() == 2 * data.len(),
    decreases data.len(),
{
    if data.len() > 0 {
        lemma_hex_of_len(data.drop_last());
    }
}

/// Relies on `ring::hmac::Key::new` and `ring::hmac::sign` with the
/// HMAC_SHA256 algorithm: the tag depends on the key and message alone and is
/// as long as one SHA-256 digest, 32 bytes.
#[verifier::external_body]
fn hmac_sign_bytes(key_bytes: &[u8], sign_bytes: &[u8]) -> (r: Vec<u8>)
    ensures
        r@ == hmac_sha256(key_bytes@, sign_bytes@),
        r@.len() == 32,
{
    let key = ring::hmac::Key::new(ring::hmac::HMAC_SHA256, key_bytes);
    ring::hmac::sign(&key, sign_bytes).as_ref().to_vec()
}

/// Relies on `ring::digest::digest` with the SHA256 algorithm: the digest
/// depends on the data alone and is 32 bytes long.
#[verifier::external_body]
fn sha256_digest(data: &[u8]) -> (r: Vec<u8>)
    ensures
        r@ == sha256(data@),
        r@.len() == 32,
{
    ring::digest::digest(&ring::digest::SHA256, data).as_ref().to_vec()
}

/// Relies on `hex::encode`: each byte becomes two lowercase hex digits, high
/// nibble first.
#[verifier::external_body]
fn to_hex(data: &[u8]) -> (r: String)
    ensures
        r@ == hex_of(data@),
{
    hex::encode(data)
}

/// The lowercase hex of the SHA-256 digest of `data`: 64 hex digits.
fn hex_digest(data: &[u8]) -> (r: String)
    ensures
        r@ == hex_of(sha256(data@)),
        r@.len() == 64,
{
    let d = sha256_digest(data);
    proof {
        lemma_hex_of_len(d@);
    }
    to_hex(d.as_slice())
}

/// The headers of one signed request.
pub struct Signature {
    /// The `authorization` header value.
    pub authorization: String,
    /// The `x-amz-date` header value.
    pub x_amz_date: String,
    /// The `x-amz-content-sha256` header value.
    pub x_amz_content_sha256: String,
}

/// The derived signing key: the secret key prefixed with `AWS4` is folded
/// through the date, the region, the service and the terminator.
pub open spec fn signing_key_view(secret: Seq<char>, short: Seq<char>, region: Seq<char>) -> Seq<
    u8,
> {
    hmac_sha256(
        hmac_sha256(
            hmac_sha256(
                hmac_sha256(encode_utf8("AWS4"@ + secret), encode_utf8(short)),
                encode_utf8(region),
            ),
            encode_utf8("s3"@),
        ),
        encode_utf8("aws4_request"@),
    )
}

/// The credential scope: date, region, service and terminator, separated by
/// slashes.
pub open spec fn credential_scope_view(short: Seq<char>, region: Seq<char>) -> Seq<char> {
    short + "/"@ + region + "/"@ + "s3"@ + "/"@ + "aws4_request"@
}

/// The canonical request: method, path, the three signed headers with their
/// values, the signed-header list, and the body digest, newline-separated.
pub open spec fn canonical_request_view(
    method: Seq<char>,
    path: Seq<char>,
    host: Seq<char>,
    basic: Seq<char>,
    body_digest: Seq<char>,
) -> Seq<char> {
    method + "\n"@ + path + "\n"@ + "\n"@ + "host: "@ + host + "\n"@ + "x-amz-content-sha256: "@
        + body_digest + "\n"@ + "x-amz-date: "@ + basic + "\n"@ + "\n"@
        + "host;x-amz-content-sha256;x-amz-date"@ + "\n"@ + body_digest
}

/// The string to sign: algorithm, timestamp, credential scope and the hex of
/// the hashed canonical request, newline-separated.
pub open spec fn string_to_sign_view(
    basic: Seq<char>,
    short: Seq<char>,
    region: Seq<char>,
    hashed_request: Seq<char>,
) -> Seq<char> {
    "AWS4-HMAC-SHA256"@ + "\n"@ + basic + "\n"@ + credential_scope_view(short, region) + "\n"@
        + hashed_request
}

/// The `authorization` header value assembled from the access key, the
/// credential scope and the hex signature.
pub open spec fn authorization_view(
    access: Seq<char>,
    short: Seq<char>,
    region: Seq<char>,
    signature_hex: Seq<char>,
) -> Seq<char> {
    "AWS4-HMAC-SHA256"@ + " Credential="@ + access + "/"@ + credential_scope_view(short, region)
        + ", SignedHeaders="@ + "host;x-amz-content-sha256;x-amz-date"@ + ", Signature="@
        + signature_hex
}

/// Signs requests for one backend at one timepoint. The timestamps are the
/// same instant rendered two ways: full (`yyyymmddThhmmssZ`) and date-only
/// (`yyyymmdd`); the caller renders them, since reading a clock is not this
/// engine's business.
pub struct Signer {
    access_key: String,
    secret_key: String,
    region: String,
    host: String,
    timestamp_basic: String,
    timestamp_short: String,
}

impl Signer {
    /// The configured access key.
    pub closed spec fn spec_access_key(&self) -> Seq<char> {
        self.access_key@
    }

    /// The configured secret key.
    pub closed spec fn spec_secret_key(&self) -> Seq<char> {
        self.secret_key@
    }

    /// The configured region.
    pub closed spec fn spec_region(&self) -> Seq<char> {
        self.region@
    }

    /// The configured host.
    pub closed spec fn spec_host(&self) -> Seq<char> {
        self.host@
    }

    /// The full timestamp.
    pub closed spec fn spec_timestamp_basic(&self) -> Seq<char> {
        self.timestamp_basic@
    }

    /// The date-only timestamp.
    pub closed spec fn spec_timestamp_short(&self) -> Seq<char> {
        self.timestamp_short@
    }

    /// A signer for the given backend and rendered timestamps.
    pub fn new(config: &Configuration, timestamp_basic: String, timestamp_short: String) -> (r:
        Signer)
        ensures
            r.spec_access_key() == config.access_key@,
            r.spec_secret_key() == config.secret_key@,
            r.spec_region() == config.region@,
            r.spec_host() == config.host@,
            r.spec_timestamp_basic() == timestamp_basic@,
            r.spec_timestamp_short() == timestamp_short@,
    {
        Signer {
            access_key: config.access_key.clone(),
            secret_key: config.secret_key.clone(),
            region: config.region.clone(),
            host: config.host.clone(),
            timestamp_basic,
            timestamp_short,
        }
    }

    /// The derived signing key for this signer's date and region.
    fn derived_signing_key(&self) -> (r: Vec<u8>)
        ensures
            r@ == signing_key_view(
                self.spec_secret_key(),
                self.spec_timestamp_short(),
                self.spec_region(),
            ),
    {
        let mut seed = String::from_str("AWS4");
        seed.append(self.secret_key.as_str());
        let date = hmac_sign_bytes(
            seed.as_str().as_bytes(),
            self.timestamp_short.as_str().as_bytes(),
        );
        let region = hmac_sign_bytes(date.as_slice(), self.region.as_str().as_bytes());
        let service = hmac_sign_bytes(region.as_slice(), "s3".as_bytes());
        hmac_sign_bytes(service.as_slice(), "aws4_request".as_bytes())
    }

    /// The credential scope for this signer's date and region.
    fn credential_scope(&self) -> (r: String)
        ensures
            r@ == credential_scope_view(self.spec_timestamp_short(), self.spec_region()),
    {
        let mut out = self.timestamp_short.clone();
        out.append("/");
        out.append(self.region.as_str());
        out.append("/");
        out.append("s3");
        out.append("/");
        out.append("aws4_request");
        out
    }

    /// The hex-encoded SHA-256 of the canonical request.
    fn hashed_canonical_request(&self, method: &str, path: &str, body_digest: &str) -> (r: String)
        ensures
            r@ == hex_of(
                sha256(
                    encode_utf8(
                        canonical_request_view(
                            method@,
                            path@,
                            self.spec_host(),
                            self.spec_timestamp_basic(),
                            body_digest@,
                        ),
                    ),
                ),
            ),
    {
        let mut c = String::from_str(method);
        c.append("\n");
        c.append(path);
        c.append("\n");
        c.append("\n");
        c.append("host: ");
        c.append(self.host.as_str());
        c.append("\n");
        c.append("x-amz-content-sha256: ");
        c.append(body_digest);
        c.append("\n");
        c.append("x-amz-date: ");
        c.append(self.timestamp_basic.as_str());
        c.append("\n");
        c.append("\n");
        c.append("host;x-amz-content-sha256;x-amz-date");
        c.append("\n");
        c.append(body_digest);
        hex_digest(c.as_str().as_bytes())
    }

    /// The string to sign for one request.
    fn string_to_sign(&self, method: &str, path: &str, body_digest: &str) -> (r: String)
        ensures
            r@ == string_to_sign_view(
                self.spec_timestamp_basic(),
                self.spec_timestamp_short(),
                self.spec_region(),
                hex_of(
                    sha256(
                        encode_utf8(
                            canonical_request_view(
                                method@,
                                path@,
                                self.spec_host(),
                                self.spec_timestamp_basic(),
                                body_digest@,
                            ),
                        ),
                    ),
                ),
            ),
    {
        let hashed = self.hashed_canonical_request(method, path, body_digest);
        let mut out = String::from_str("AWS4-HMAC-SHA256");
        out.append("\n");
        out.append(self.timestamp_basic.as_str());
        out.append("\n");
        let scope = self.credential_scope();
        out.append(scope.as_str());
        out.append("\n");
        out.append(hashed.as_str());
        out
    }

    /// The `authorization` header value for one request.
    fn authorization(&self, method: &str, path: &str, body_digest: &str) -> (r: String)
        ensures
            r@ == authorization_view(
                self.spec_access_key(),
                self.spec_timestamp_short(),
                self.spec_region(),
                hex_of(
                    hmac_sha256(
                        signing_key_view(
                            self.spec_secret_key(),
                            self.spec_timestamp_short(),
                            self.spec_region(),
                        ),
                        encode_utf8(
                            string_to_sign_view(
                                self.spec_timestamp_basic(),
                                self.spec_timestamp_short(),
                                self.spec_region(),
                                hex_of(
                                    sha256(
                                        encode_utf8(
                                            canonical_request_view(
                                                method@,
                                                path@,
                                                self.spec_host(),
                                                self.spec_timestamp_basic(),
                                                body_digest@,
                                            ),
                                        ),
                                    ),
                                ),
                            ),
                        ),
                    ),
                ),
            ),
    {
        let sign_key = self.derived_signing_key();
        let sign_bytes = self.string_to_sign(method, path, body_digest);
        let tag = hmac_sign_bytes(sign_key.as_slice(), sign_bytes.as_str().as_bytes());
        let signature = to_hex(tag.as_slice());
        let mut out = String::from_str("AWS4-HMAC-SHA256");
        out.append(" Credential=");
        out.append(self.access_key.as_str());
        out.append("/");
        let scope = self.credential_scope();
        out.append(scope.as_str());
        out.append(", SignedHeaders=");
        out.append("host;x-amz-content-sha256;x-amz-date");
        out.append(", Signature=");
        out.append(signature.as_str());
        out
    }

    /// Signs one request: the body is digested, the canonical request is
    /// hashed and signed with the derived key, and the three header values
    /// are returned.
    pub fn sign_request(self, method: &str, path: &str, body: &[u8]) -> (r: Signature)
        ensures
            r.x_amz_date@ == self.spec_timestamp_basic(),
            r.x_amz_content_sha256@ == hex_of(sha256(body@)),
            r.x_amz_content_sha256@.len() == 64,
            r.authorization@ == authorization_view(
                self.spec_access_key(),
                self.spec_timestamp_short(),
                self.spec_region(),
                hex_of(
                    hmac_sha256(
                        signing_key_view(
                            self.spec_secret_key(),
                            self.spec_timestamp_short(),
                            self.spec_region(),
                        ),
                        encode_utf8(
                            string_to_sign_view(
                                self.spec_timestamp_basic(),
                                self.spec_timestamp_short(),
                                self.spec_region(),
                                hex_of(
                                    sha256(
                                        encode_utf8(
                                            canonical_request_view(
                                                method@,
                                                path@,
                                                self.spec_host(),
                                                self.spec_timestamp_basic(),
                                                hex_of(sha256(body@)),
                                            ),
                                        ),
                                    ),
                                ),
                            ),
                        ),
                    ),
                ),
            ),
    {
        let body_digest = hex_digest(body);
        let authorization = self.authorization(method, path, body_digest.as_str());
        Signature {
            authorization,
            x_amz_date: self.timestamp_basic,
            x_amz_content_sha256: body_digest,
        }
    }
}

} // verus!
