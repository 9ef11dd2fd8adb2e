//! Signing of cloud API requests (Signature Version 4) and the Query API.

use hmac::{Hmac, Mac};
use sha2::{Digest, Sha256};

use vstd::prelude::*;

use crate::infra::asg;
use crate::text;

verus! {

/// Access keys of an account or role.
#[derive(Debug)]
pub struct AwsCredentials {
    pub access_key_id: String,
    pub secret_access_key: String,
    pub session_token: Option<String>,
}

/// The headers that a signature adds to a request.
#[derive(Debug)]
pub struct SigV4Result {
    pub authorization: String,
    pub x_amz_date: String,
}

// ── Digests ───────────────────────────────────────────────────────────────

/// The SHA-256 digest of a byte string.
pub uninterp spec fn sha256(data: Seq<u8>) -> Seq<u8>;

/// The HMAC-SHA-256 code of a byte string under a key.
pub uninterp spec fn hmac_sha256_code(key: Seq<u8>, data: Seq<u8>) -> Seq<u8>;

/// `sha2::Sha256::digest`: the digest of `data`, which is 32 bytes long and
/// depends on nothing else.
#[verifier::external_body]
fn digest_sha256(data: &[u8]) -> (out: Vec<u8>)
    ensures
        out@ == sha256(data@),
        out@.len() == 32,
{
    Sha256::digest(data).to_vec()
}

/// `hmac::Hmac<sha2::Sha256>`: the code of `data` under `key`, which may have
/// any length. The code is 32 bytes long and depends on nothing else.
#[verifier::external_body]
pub fn hmac_sha256(key: &[u8], data: &[u8]) -> (out: Vec<u8>)
    ensures
        out@ == hmac_sha256_code(key@, data@),
        out@.len() == 32,
{
    let mut mac = Hmac::<Sha256>::new_from_slice(key).expect("HMAC accepts any key length");
    mac.update(data);
    mac.finalize().into_bytes().to_vec()
}

/// A lower-case hexadecimal digit.
pub open spec fn hex_char(d: nat) -> char {
    if d < 10 {
        (('0' as nat) + d) as char
    } else {
        (('a' as nat) + (d - 10)) as char
    }
}

/// Two lower-case hexadecimal digits per byte, the high one first.
pub open spec fn hex_text(data: Seq<u8>) -> Seq<char> {
    Seq::new(
        data.len() * 2,
        |i: int|
            hex_char(
                if i % 2 == 0 {
                    data[i / 2] as nat / 16
                } else {
                    data[i / 2] as nat % 16
                },
            ),
    )
}

/// `hex::encode`: two lower-case hexadecimal digits per byte.
#[verifier::external_body]
fn hex_encode(data: &[u8]) -> (out: String)
    ensures
        out@ == hex_text(data@),
{
    hex::encode(data)
}

/// The SHA-256 digest of `data` in hexadecimal.
pub fn sha256_hex(data: &[u8]) -> (out: String)
    ensures
        out@ == hex_text(sha256(data@)),
        out@.len() == 64,
{
    let digest = digest_sha256(data);
    hex_encode(digest.as_slice())
}

// ── Signature ─────────────────────────────────────────────────────────────

/// The UTF-8 bytes of a text.
pub open spec fn bytes(s: Seq<char>) -> Seq<u8> {
    vstd::utf8::encode_utf8(s)
}

/// What is signed, apart from the secret.
pub struct SignInput {
    pub method: Seq<char>,
    pub host: Seq<char>,
    pub path: Seq<char>,
    pub body: Seq<char>,
    pub service: Seq<char>,
    pub region: Seq<char>,
    pub token: Option<Seq<char>>,
    /// The time of the request, such as `20240102T030405Z`.
    pub date: Seq<char>,
}

impl SignInput {
    /// The day of the request: what stands before the `T` of its time.
    pub open spec fn day(self) -> Seq<char> {
        match text::split_once(self.date, 'T') {
            Some(p) => p.0,
            None => self.date,
        }
    }

    /// The headers that are signed, sorted by name, one per line.
    pub open spec fn canonical_headers(self) -> Seq<char> {
        let base = "content-type:application/x-www-form-urlencoded\nhost:"@ + self.host
            + "\nx-amz-date:"@ + self.date + "\n"@;
        match self.token {
            Some(t) => base + "x-amz-security-token:"@ + t + "\n"@,
            None => base,
        }
    }

    /// The names of the headers that are signed.
    pub open spec fn signed_headers(self) -> Seq<char> {
        match self.token {
            Some(_) => "content-type;host;x-amz-date;x-amz-security-token"@,
            None => "content-type;host;x-amz-date"@,
        }
    }

    /// The request in canonical form.
    pub open spec fn canonical_request(self) -> Seq<char> {
        self.method + "\n"@ + self.path + "\n\n"@ + self.canonical_headers() + "\n"@
            + self.signed_headers() + "\n"@ + hex_text(sha256(bytes(self.body)))
    }

    /// What the signing key is good for.
    pub open spec fn scope(self) -> Seq<char> {
        self.day() + "/"@ + self.region + "/"@ + self.service + "/aws4_request"@
    }

    /// The text whose code is the signature.
    pub open spec fn string_to_sign(self) -> Seq<char> {
        "AWS4-HMAC-SHA256\n"@ + self.date + "\n"@ + self.scope() + "\n"@ + hex_text(
            sha256(bytes(self.canonical_request())),
        )
    }

    /// The key derived from the secret for the day, region and service.
    pub open spec fn signing_key(self, secret: Seq<char>) -> Seq<u8> {
        let k_date = hmac_sha256_code(bytes("AWS4"@ + secret), bytes(self.day()));
        let k_region = hmac_sha256_code(k_date, bytes(self.region));
        let k_service = hmac_sha256_code(k_region, bytes(self.service));
        hmac_sha256_code(k_service, bytes("aws4_request"@))
    }

    /// The signature in hexadecimal.
    pub open spec fn signature(self, secret: Seq<char>) -> Seq<char> {
        hex_text(hmac_sha256_code(self.signing_key(secret), bytes(self.string_to_sign())))
    }

    /// The `Authorization` header.
    pub open spec fn authorization(self, key_id: Seq<char>, secret: Seq<char>) -> Seq<char> {
        "AWS4-HMAC-SHA256 Credential="@ + key_id + "/"@ + self.scope() + ", SignedHeaders="@
            + self.signed_headers() + ", Signature="@ + self.signature(secret)
    }
}

/// The character view of an optional string slice.
pub open spec fn opt_str(o: Option<&str>) -> Option<Seq<char>> {
    match o {
        Some(s) => Some(s@),
        None => None,
    }
}

/// Signs a request made at the time `amz_date`.
pub fn sigv4_sign_at(
    amz_date: &str,
    method: &str,
    host: &str,
    path: &str,
    body: &str,
    service: &str,
    region: &str,
    access_key_id: &str,
    secret_access_key: &str,
    session_token: Option<&str>,
) -> (sig: SigV4Result)
    ensures
        sig.x_amz_date@ == amz_date@,
        sig.authorization@ == (SignInput {
            method: method@,
            host: host@,
            path: path@,
            body: body@,
            service: service@,
            region: region@,
            token: opt_str(session_token),
            date: amz_date@,
        }).authorization(access_key_id@, secret_access_key@),
{
    let ghost input = SignInput {
        method: method@,
        host: host@,
        path: path@,
        body: body@,
        service: service@,
        region: region@,
        token: opt_str(session_token),
        date: amz_date@,
    };
    let date_stamp: String = match text::cut_once(amz_date, 'T') {
        Some((day, _)) => day,
        None => text::copy_str(amz_date),
    };
    assert(date_stamp@ == input.day());

    let mut canonical_headers = text::copy_str(
        "content-type:application/x-www-form-urlencoded\nhost:",
    );
    canonical_headers.push_str(host);
    canonical_headers.push_str("\nx-amz-date:");
    canonical_headers.push_str(amz_date);
    canonical_headers.push_str("\n");
    let signed_headers: &str = match session_token {
        Some(token) => {
            canonical_headers.push_str("x-amz-security-token:");
            canonical_headers.push_str(token);
            canonical_headers.push_str("\n");
            "content-type;host;x-amz-date;x-amz-security-token"
        },
        None => "content-type;host;x-amz-date",
    };
    assert(canonical_headers@ == input.canonical_headers());
    assert(signed_headers@ == input.signed_headers());

    let body_hash = sha256_hex(body.as_bytes());
    let mut canonical_request = text::copy_str(method);
    canonical_request.push_str("\n");
    canonical_request.push_str(path);
    canonical_request.push_str("\n\n");
    canonical_request.push_str(canonical_headers.as_str());
    canonical_request.push_str("\n");
    canonical_request.push_str(signed_headers);
    canonical_request.push_str("\n");
    canonical_request.push_str(body_hash.as_str());
    assert(canonical_request@ == input.canonical_request());

    let mut scope = text::copy_str(date_stamp.as_str());
    scope.push_str("/");
    scope.push_str(region);
    scope.push_str("/");
    scope.push_str(service);
    scope.push_str("/aws4_request");
    assert(scope@ == input.scope());

    let request_hash = sha256_hex(canonical_request.as_str().as_bytes());
    let mut string_to_sign = text::copy_str("AWS4-HMAC-SHA256\n");
    string_to_sign.push_str(amz_date);
    string_to_sign.push_str("\n");
    string_to_sign.push_str(scope.as_str());
    string_to_sign.push_str("\n");
    string_to_sign.push_str(request_hash.as_str());
    assert(string_to_sign@ == input.string_to_sign());

    let mut k_secret = text::copy_str("AWS4");
    k_secret.push_str(secret_access_key);
    let k_date = hmac_sha256(k_secret.as_str().as_bytes(), date_stamp.as_str().as_bytes());
    let k_region = hmac_sha256(k_date.as_slice(), region.as_bytes());
    let k_service = hmac_sha256(k_region.as_slice(), service.as_bytes());
    let k_signing = hmac_sha256(k_service.as_slice(), "aws4_request".as_bytes());
    assert(k_signing@ == input.signing_key(secret_access_key@));

    let code = hmac_sha256(k_signing.as_slice(), string_to_sign.as_str().as_bytes());
    let signature = hex_encode(code.as_slice());

    let mut authorization = text::copy_str("AWS4-HMAC-SHA256 Credential=");
    authorization.push_str(access_key_id);
    authorization.push_str("/");
    authorization.push_str(scope.as_str());
    authorization.push_str(", SignedHeaders=");
    authorization.push_str(signed_headers);
    authorization.push_str(", Signature=");
    authorization.push_str(signature.as_str());

    SigV4Result { authorization, x_amz_date: text::copy_str(amz_date) }
}

/// The current time in the form `%Y%m%dT%H%M%SZ`, from `chrono::Utc::now`.
///
/// Nothing is promised of the text: it is whatever the system clock says.
#[verifier::external_body]
pub(crate) fn utc_stamp_now() -> String {
    chrono::Utc::now().format("%Y%m%dT%H%M%SZ").to_string()
}

/// Signs a request made now.
///
/// The time is read from the system clock; the signature is the one that
/// [`sigv4_sign_at`] makes for the time in `x_amz_date`.
pub fn sigv4_sign(
    method: &str,
    host: &str,
    path: &str,
    body: &str,
    service: &str,
    region: &str,
    access_key_id: &str,
    secret_access_key: &str,
    session_token: Option<&str>,
) -> (sig: SigV4Result)
    ensures
        sig.authorization@ == (SignInput {
            method: method@,
            host: host@,
            path: path@,
            body: body@,
            service: service@,
            region: region@,
            token: opt_str(session_token),
            date: sig.x_amz_date@,
        }).authorization(access_key_id@, secret_access_key@),
{
    let amz_date = utc_stamp_now();
    sigv4_sign_at(
        amz_date.as_str(),
        method,
        host,
        path,
        body,
        service,
        region,
        access_key_id,
        secret_access_key,
        session_token,
    )
}

/// The signature covers the body: requests that differ only in bodies with
/// different digests have different canonical forms.
pub proof fn law_body_is_signed(a: SignInput, b: SignInput)
    requires
        a == (SignInput { body: a.body, ..b }),
        hex_text(sha256(bytes(a.body))) != hex_text(sha256(bytes(b.body))),
    ensures
        a.canonical_request() != b.canonical_request(),
{
    let p = a.method + "\n"@ + a.path + "\n\n"@ + a.canonical_headers() + "\n"@
        + a.signed_headers() + "\n"@;
    let x = hex_text(sha256(bytes(a.body)));
    let y = hex_text(sha256(bytes(b.body)));
    assert(a.canonical_request() == p + x);
    assert(b.canonical_request() == p + y);
    if p + x == p + y {
        assert((p + x).skip(p.len() as int) =~= x);
        assert((p + y).skip(p.len() as int) =~= y);
    }
}

// ── Query API ─────────────────────────────────────────────────────────────

/// Parameters in the `application/x-www-form-urlencoded` form.
pub uninterp spec fn form_urlencoded(params: Seq<(Seq<char>, Seq<char>)>) -> Seq<char>;

/// `serde_urlencoded::to_string`: the form encoding of a list of pairs.
///
/// The encoder only refuses values that are not pairs of strings, so a list of
/// pairs of strings always has an encoding.
#[verifier::external_body]
fn form_encode(params: &Vec<(String, String)>) -> (out: String)
    ensures
        out@ == form_urlencoded(asg::pairs(params@)),
{
    serde_urlencoded::to_string(params).expect("pairs of strings always encode")
}

/// A signed POST request.
#[derive(Debug)]
pub struct AwsRequest {
    pub endpoint: String,
    pub body: String,
    pub x_amz_date: String,
    pub authorization: String,
    pub session_token: Option<String>,
}

/// Prepares a POST to a Query API endpoint, signed with Signature Version 4.
pub fn aws_query(
    host: &str,
    service: &str,
    region: &str,
    creds: &AwsCredentials,
    params: &Vec<(String, String)>,
) -> (req: AwsRequest)
    ensures
        req.endpoint@ == "https://"@ + host@ + "/"@,
        req.body@ == form_urlencoded(asg::pairs(params@)),
        text::opt_text(req.session_token) == text::opt_text(creds.session_token),
        req.authorization@ == (SignInput {
            method: "POST"@,
            host: host@,
            path: "/"@,
            body: req.body@,
            service: service@,
            region: region@,
            token: text::opt_text(creds.session_token),
            date: req.x_amz_date@,
        }).authorization(creds.access_key_id@, creds.secret_access_key@),
{
    let mut endpoint = text::copy_str("https://");
    endpoint.push_str(host);
    endpoint.push_str("/");
    let body = form_encode(params);
    let token: Option<&str> = match &creds.session_token {
        Some(t) => Some(t.as_str()),
        None => None,
    };
    let sig = sigv4_sign(
        "POST",
        host,
        "/",
        body.as_str(),
        service,
        region,
        creds.access_key_id.as_str(),
        creds.secret_access_key.as_str(),
        token,
    );
    AwsRequest {
        endpoint,
        body,
        x_amz_date: sig.x_amz_date,
        authorization: sig.authorization,
        session_token: text::copy_opt(&creds.session_token),
    }
}

/// The reply to a query: its text where the status says success, else the
/// status and the text.
pub fn aws_reply(status: u16, body: String) -> (r: Result<String, (u16, String)>)
    ensures
        match r {
            Ok(s) => 200 <= status < 300 && s == body,
            Err(e) => !(200 <= status < 300) && e.0 == status && e.1 == body,
        },
{
    if 200 <= status && status < 300 {
        Ok(body)
    } else {
        Err((status, body))
    }
}

/// A signature is good for the day before the `T` of its time, and for its region
/// and service only.
pub proof fn law_scope_of_a_signature(input: SignInput, day: Seq<char>, time: Seq<char>)
    requires
        input.date == day.push('T') + time,
        !day.contains('T'),
    ensures
        input.scope() == day + "/"@ + input.region + "/"@ + input.service + "/aws4_request"@,
{
    text::law_split_once_undoes_joining(input.date, 'T', day, time);
}

/// A session token is signed with the other headers, and only where there is one.
pub proof fn law_token_is_signed(input: SignInput, token: Seq<char>)
    ensures
        ({
            let without = SignInput { token: None, ..input };
            let with = SignInput { token: Some(token), ..input };
            &&& with.canonical_headers() == without.canonical_headers() + "x-amz-security-token:"@
                + token + "\n"@
            &&& with.signed_headers() == without.signed_headers() + ";x-amz-security-token"@
        }),
{
    reveal_strlit("content-type;host;x-amz-date;x-amz-security-token");
    reveal_strlit("content-type;host;x-amz-date");
    reveal_strlit(";x-amz-security-token");
    assert("content-type;host;x-amz-date;x-amz-security-token"@
        =~= "content-type;host;x-amz-date"@ + ";x-amz-security-token"@);
}

/// Requests that differ only in the secret differ in nothing but the signature.
pub proof fn law_secret_is_only_in_the_signature(
    input: SignInput,
    key_id: Seq<char>,
    a: Seq<char>,
    b: Seq<char>,
)
    ensures
        ({
            let n = input.authorization(key_id, a).len() - input.signature(a).len();
            let m = input.authorization(key_id, b).len() - input.signature(b).len();
            &&& input.authorization(key_id, a).take(n) == input.authorization(key_id, b).take(m)
            &&& input.authorization(key_id, a).skip(n) == input.signature(a)
        }),
{
    let p = "AWS4-HMAC-SHA256 Credential="@ + key_id + "/"@ + input.scope() + ", SignedHeaders="@
        + input.signed_headers() + ", Signature="@;
    assert(input.authorization(key_id, a) =~= p + input.signature(a));
    assert(input.authorization(key_id, b) =~= p + input.signature(b));
    let n = p.len() as int;
    assert((p + input.signature(a)).take(n) =~= p);
    assert((p + input.signature(b)).take(n) =~= p);
    assert((p + input.signature(a)).skip(n) =~= input.signature(a));
}

} // verus!
