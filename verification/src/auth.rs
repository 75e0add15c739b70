//! Bearer-token authentication: claims are serialized with the verified JSON
//! codec, signing and verification go through the token library, and every
//! failure collapses into the same unauthorized outcome.

use vstd::prelude::*;
use crate::error::AppError;
use crate::json::{
    chars_of, enc_int, enc_string, lemma_parse_exact_inverts, lemma_parse_int_wide_inverts,
    lemma_parse_string_inverts, parse_exact, parse_int_wide, parse_int_wide_at, parse_string,
    parse_string_at, push_json_i64, push_json_string,
};
use vstd::string::StringExecFns;

verus! {

/// The claims carried by a token; times are seconds since the Unix epoch.
#[derive(Debug, Clone, PartialEq)]
pub struct Claims {
    pub sub: String,
    pub name: String,
    pub role: String,
    pub exp: i64,
    pub iat: i64,
}

pub ghost struct ClaimsV {
    pub sub: Seq<char>,
    pub name: Seq<char>,
    pub role: Seq<char>,
    pub exp: int,
    pub iat: int,
}

impl View for Claims {
    type V = ClaimsV;

    open spec fn view(&self) -> ClaimsV {
        ClaimsV {
            sub: self.sub@,
            name: self.name@,
            role: self.role@,
            exp: self.exp as int,
            iat: self.iat as int,
        }
    }
}

/// An authenticated principal.
#[derive(Debug, Clone, PartialEq)]
pub struct User {
    pub id: String,
    pub name: String,
    pub role: String,
}

pub ghost struct UserV {
    pub id: Seq<char>,
    pub name: Seq<char>,
    pub role: Seq<char>,
}

impl View for User {
    type V = UserV;

    open spec fn view(&self) -> UserV {
        UserV { id: self.id@, name: self.name@, role: self.role@ }
    }
}

/// The credentials and display name the login check is configured with.
pub struct AdminConfig {
    pub username: String,
    pub password: String,
    pub display_name: String,
}

// ------------------------------------------------------------------
// Claims JSON

/// The JSON text a claims record is serialized as.
pub open spec fn claims_json(c: ClaimsV) -> Seq<char> {
    "{\"sub\":"@ + enc_string(c.sub) + ",\"name\":"@ + enc_string(c.name) + ",\"role\":"@
        + enc_string(c.role) + ",\"exp\":"@ + enc_int(c.exp) + ",\"iat\":"@ + enc_int(c.iat)
        + seq!['}']
}

/// Parses a whole claims JSON text; anything else gives nothing.
pub open spec fn decode_claims_spec(s: Seq<char>) -> Option<ClaimsV> {
    match parse_exact(s, "{\"sub\":"@) {
        None => None,
        Some(r1) => match parse_string(r1) {
            None => None,
            Some((sub, r2)) => match parse_exact(r2, ",\"name\":"@) {
                None => None,
                Some(r3) => match parse_string(r3) {
                    None => None,
                    Some((name, r4)) => match parse_exact(r4, ",\"role\":"@) {
                        None => None,
                        Some(r5) => match parse_string(r5) {
                            None => None,
                            Some((role, r6)) => match parse_exact(r6, ",\"exp\":"@) {
                                None => None,
                                Some(r7) => match parse_int_wide(r7) {
                                    None => None,
                                    Some((exp, r8)) => match parse_exact(r8, ",\"iat\":"@) {
                                        None => None,
                                        Some(r9) => match parse_int_wide(r9) {
                                            None => None,
                                            Some((iat, r10)) => if r10 =~= seq!['}'] {
                                                Some(ClaimsV { sub, name, role, exp, iat })
                                            } else {
                                                None
                                            },
                                        },
                                    },
                                },
                            },
                        },
                    },
                },
            },
        },
    }
}

/// Round-trip: the claims JSON parses back to the claims it was written
/// from, for times that fit the integer codec.
#[verifier::rlimit(100)]
pub proof fn law_claims_round_trip(c: ClaimsV)
    requires
        0 <= c.exp <= 0x7fff_ffff_ffff_ffff,
        0 <= c.iat <= 0x7fff_ffff_ffff_ffff,
    ensures
        decode_claims_spec(claims_json(c)) == Some(c),
{
    let s = claims_json(c);
    let t1 = enc_string(c.sub) + ",\"name\":"@ + enc_string(c.name) + ",\"role\":"@ + enc_string(
        c.role,
    ) + ",\"exp\":"@ + enc_int(c.exp) + ",\"iat\":"@ + enc_int(c.iat) + seq!['}'];
    assert(s =~= "{\"sub\":"@ + t1);
    lemma_parse_exact_inverts("{\"sub\":"@, t1);
    let t2 = ",\"name\":"@ + enc_string(c.name) + ",\"role\":"@ + enc_string(c.role) + ",\"exp\":"@
        + enc_int(c.exp) + ",\"iat\":"@ + enc_int(c.iat) + seq!['}'];
    assert(t1 =~= enc_string(c.sub) + t2);
    lemma_parse_string_inverts(c.sub, t2);
    let t3 = enc_string(c.name) + ",\"role\":"@ + enc_string(c.role) + ",\"exp\":"@ + enc_int(
        c.exp,
    ) + ",\"iat\":"@ + enc_int(c.iat) + seq!['}'];
    assert(t2 =~= ",\"name\":"@ + t3);
    lemma_parse_exact_inverts(",\"name\":"@, t3);
    let t4 = ",\"role\":"@ + enc_string(c.role) + ",\"exp\":"@ + enc_int(c.exp) + ",\"iat\":"@
        + enc_int(c.iat) + seq!['}'];
    assert(t3 =~= enc_string(c.name) + t4);
    lemma_parse_string_inverts(c.name, t4);
    let t5 = enc_string(c.role) + ",\"exp\":"@ + enc_int(c.exp) + ",\"iat\":"@ + enc_int(c.iat)
        + seq!['}'];
    assert(t4 =~= ",\"role\":"@ + t5);
    lemma_parse_exact_inverts(",\"role\":"@, t5);
    let t6 = ",\"exp\":"@ + enc_int(c.exp) + ",\"iat\":"@ + enc_int(c.iat) + seq!['}'];
    assert(t5 =~= enc_string(c.role) + t6);
    lemma_parse_string_inverts(c.role, t6);
    let t7 = enc_int(c.exp) + ",\"iat\":"@ + enc_int(c.iat) + seq!['}'];
    assert(t6 =~= ",\"exp\":"@ + t7);
    lemma_parse_exact_inverts(",\"exp\":"@, t7);
    let t8 = ",\"iat\":"@ + enc_int(c.iat) + seq!['}'];
    assert(t7 =~= enc_int(c.exp) + t8);
    reveal_strlit(",\"iat\":");
    assert(t8[0] == ',');
    assert(!crate::json::is_digit(','));
    lemma_parse_int_wide_inverts(c.exp, t8);
    let t9 = enc_int(c.iat) + seq!['}'];
    assert(t8 =~= ",\"iat\":"@ + t9);
    lemma_parse_exact_inverts(",\"iat\":"@, t9);
    let t10 = seq!['}'];
    assert(t9 =~= enc_int(c.iat) + t10);
    assert(!crate::json::is_digit('}'));
    lemma_parse_int_wide_inverts(c.iat, t10);
}

/// Writes the claims JSON.
pub fn encode_claims(c: &Claims) -> (r: String)
    requires
        c.exp >= 0,
        c.iat >= 0,
    ensures
        r@ == claims_json(c@),
{
    let mut out = String::new();
    out.append("{\"sub\":");
    push_json_string(&mut out, c.sub.as_str());
    out.append(",\"name\":");
    push_json_string(&mut out, c.name.as_str());
    out.append(",\"role\":");
    push_json_string(&mut out, c.role.as_str());
    out.append(",\"exp\":");
    push_json_i64(&mut out, c.exp);
    out.append(",\"iat\":");
    push_json_i64(&mut out, c.iat);
    out.push('}');
    proof {
        assert(out@ =~= claims_json(c@));
    }
    out
}

/// Reads a claims JSON text back.
#[verifier::rlimit(100)]
pub fn decode_claims(s: &str) -> (r: Option<Claims>)
    ensures
        match r {
            Some(c) => decode_claims_spec(s@) == Some(c@),
            None => decode_claims_spec(s@) is None,
        },
{
    let v = chars_of(s);
    proof {
        assert(v@.skip(0) =~= s@);
    }
    let j1 = match crate::json::expect_at(&v, 0, "{\"sub\":") {
        Some(j) => j,
        None => { return None; },
    };
    let (sub, j2) = match parse_string_at(&v, j1) {
        Some(x) => x,
        None => { return None; },
    };
    let j3 = match crate::json::expect_at(&v, j2, ",\"name\":") {
        Some(j) => j,
        None => { return None; },
    };
    let (name, j4) = match parse_string_at(&v, j3) {
        Some(x) => x,
        None => { return None; },
    };
    let j5 = match crate::json::expect_at(&v, j4, ",\"role\":") {
        Some(j) => j,
        None => { return None; },
    };
    let (role, j6) = match parse_string_at(&v, j5) {
        Some(x) => x,
        None => { return None; },
    };
    let j7 = match crate::json::expect_at(&v, j6, ",\"exp\":") {
        Some(j) => j,
        None => { return None; },
    };
    let (exp, j8) = match parse_int_wide_at(&v, j7) {
        Some(x) => x,
        None => { return None; },
    };
    let j9 = match crate::json::expect_at(&v, j8, ",\"iat\":") {
        Some(j) => j,
        None => { return None; },
    };
    let (iat, j10) = match parse_int_wide_at(&v, j9) {
        Some(x) => x,
        None => { return None; },
    };
    if j10 < v.len() && v.len() - j10 == 1 && v[j10] == '}' {
        proof {
            assert(v@.skip(j10 as int) =~= seq!['}']);
        }
        Some(Claims { sub, name, role, exp, iat })
    } else {
        proof {
            let r10 = v@.skip(j10 as int);
            if j10 >= v.len() {
                assert(r10.len() == 0);
            } else if v.len() - j10 > 1 {
                assert(r10.len() >= 2);
            } else {
                assert(r10[0] == v@[j10 as int]);
            }
            assert(!(r10 =~= seq!['}']));
        }
        None
    }
}

// ------------------------------------------------------------------
// The token library

/// The token that signing the given claims JSON with the given secret
/// produces: a pure function of the two texts.
pub uninterp spec fn jwt_of(claims_json_text: Seq<char>, secret: Seq<char>) -> Seq<char>;

/// The claims JSON a token carries, as signature verification returns it: a
/// pure function of the token text.
pub uninterp spec fn payload_of(token: Seq<char>) -> Seq<char>;

/// Whether the token's signature verifies under the secret: a pure function
/// of the two texts. Signing establishes it; verification succeeds only
/// where it holds.
pub uninterp spec fn jwt_verified(token: Seq<char>, secret: Seq<char>) -> bool;

/// Relies on `jsonwebtoken::encode` with the default HS256 header: signing is
/// deterministic in the claims text and the secret, and the produced token
/// carries the claims text unchanged as its payload and verifies under the
/// same secret. The input must be a canonical claims text — the payload
/// carrier trims surrounding whitespace, so only texts it keeps verbatim are
/// admitted — and for such texts HMAC signing cannot fail.
#[verifier::external_body]
fn jwt_encode(claims_json_text: &str, secret: &str) -> (r: Option<String>)
    requires
        exists|c: ClaimsV| claims_json_text@ == claims_json(c),
    ensures
        r is Some,
        r matches Some(t) ==> t@ == jwt_of(claims_json_text@, secret@) && payload_of(t@)
            == claims_json_text@ && jwt_verified(t@, secret@),
{
    let raw = match serde_json::value::RawValue::from_string(claims_json_text.to_string()) {
        Ok(r) => r,
        Err(_) => { return None; },
    };
    let key = jsonwebtoken::EncodingKey::from_secret(secret.as_bytes());
    match jsonwebtoken::encode(&jsonwebtoken::Header::default(), &raw, &key) {
        Ok(t) => Some(t),
        Err(_) => None,
    }
}

/// Relies on `jsonwebtoken::decode`: it verifies the HS256 signature with the
/// secret and the expiry claim against the clock, and on success returns the
/// claims JSON exactly as embedded in the token. Success requires the
/// signature to verify under the secret; whether an unexpired token passes
/// also depends on the clock, so success itself is otherwise left open.
#[verifier::external_body]
fn jwt_decode(token: &str, secret: &str) -> (r: Option<String>)
    ensures
        r matches Some(c) ==> c@ == payload_of(token@) && jwt_verified(token@, secret@),
{
    let key = jsonwebtoken::DecodingKey::from_secret(secret.as_bytes());
    let validation = jsonwebtoken::Validation::default();
    match jsonwebtoken::decode::<Box<serde_json::value::RawValue>>(token, &key, &validation) {
        Ok(data) => Some(data.claims.get().to_string()),
        Err(_) => None,
    }
}

// ------------------------------------------------------------------
// Token issue and check

/// Issues and verifies tokens.
pub struct AuthMiddleware;

impl AuthMiddleware {
    /// Issues a token for the user, good for a day from now. Every clock
    /// reading whose expiry still fits the timestamp type yields a token;
    /// any other reading is an internal error.
    pub fn generate_token(user: &User, secret: &str, now: i64) -> (r: Result<String, AppError>)
        ensures
            0 <= now <= i64::MAX - 86400 ==> r is Ok,
            match r {
                Ok(t) => {
                    &&& 0 <= now <= i64::MAX - 86400
                    &&& jwt_verified(t@, secret@)
                    &&& t@ == jwt_of(
                        claims_json(
                            ClaimsV {
                                sub: user.id@,
                                name: user.name@,
                                role: user.role@,
                                exp: now + 86400,
                                iat: now as int,
                            },
                        ),
                        secret@,
                    )
                    &&& payload_of(t@) == claims_json(
                        ClaimsV {
                            sub: user.id@,
                            name: user.name@,
                            role: user.role@,
                            exp: now + 86400,
                            iat: now as int,
                        },
                    )
                },
                Err(e) => e is InternalError,
            },
    {
        if now < 0 || now > i64::MAX - 86400 {
            return Err(AppError::InternalError("clock out of range".to_owned()));
        }
        let claims = Claims {
            sub: user.id.clone(),
            name: user.name.clone(),
            role: user.role.clone(),
            exp: now + 86400,
            iat: now,
        };
        let text = encode_claims(&claims);
        proof {
            assert(text@ == claims_json(claims@));
        }
        match jwt_encode(text.as_str(), secret) {
            Some(t) => Ok(t),
            None => Err(AppError::InternalError("Failed to generate token".to_owned())),
        }
    }

    /// Verifies a token; any failure, of signature, expiry or shape, is the
    /// same unauthorized outcome. A success means the signature verified
    /// under the secret, and the claims are exactly what the payload parses
    /// to.
    pub fn validate_token(token: &str, secret: &str) -> (r: Result<Claims, AppError>)
        ensures
            match r {
                Ok(c) => jwt_verified(token@, secret@) && decode_claims_spec(payload_of(token@))
                    == Some(c@),
                Err(e) => e is UnauthorizedError,
            },
    {
        let payload = match jwt_decode(token, secret) {
            Some(p) => p,
            None => { return Err(AppError::UnauthorizedError("Invalid token".to_owned())); },
        };
        match decode_claims(payload.as_str()) {
            Some(c) => Ok(c),
            None => Err(AppError::UnauthorizedError("Invalid token".to_owned())),
        }
    }
}

/// The bearer scheme: the header must begin with exactly this prefix.
pub open spec fn is_bearer(h: Seq<char>) -> bool {
    h.len() >= 7 && h.take(7) == "Bearer "@
}

/// An authenticated principal extracted from a request's authorization
/// header.
#[derive(Debug)]
pub struct AuthenticatedUser(pub User);

impl AuthenticatedUser {
    /// Extracts and verifies the bearer token of a request. A missing
    /// header, a malformed scheme, and a token that fails verification all
    /// yield the same opaque unauthorized outcome, down to the message, so
    /// the response never tells a caller which check failed.
    pub fn from_request(header: Option<&String>, secret: &str) -> (r: Result<
        AuthenticatedUser,
        AppError,
    >)
        ensures
            header is None ==> r is Err,
            header matches Some(h) && !is_bearer(h@) ==> r is Err,
            r matches Err(e) ==> e is UnauthorizedError,
            r matches Ok(u) ==> (header matches Some(h) && is_bearer(h@) && jwt_verified(
                h@.skip(7),
                secret@,
            ) && (decode_claims_spec(
                payload_of(h@.skip(7)),
            ) matches Some(c) && u.0.id@ == c.sub && u.0.name@ == c.name && u.0.role@ == c.role)),
    {
        let h = match header {
            Some(h) => h,
            None => {
                return Err(AppError::UnauthorizedError("Invalid token".to_owned()));
            },
        };
        let hv = chars_of(h.as_str());
        if hv.len() < 7 {
            proof {
                assert(!is_bearer(h@));
            }
            return Err(AppError::UnauthorizedError("Invalid token".to_owned()));
        }
        proof {
            reveal_strlit("Bearer ");
        }
        proof {
            assert("Bearer "@ =~= seq!['B', 'e', 'a', 'r', 'e', 'r', ' ']);
        }
        if !(hv[0] == 'B' && hv[1] == 'e' && hv[2] == 'a' && hv[3] == 'r' && hv[4] == 'e'
            && hv[5] == 'r' && hv[6] == ' ') {
            proof {
                if h@.take(7) == "Bearer "@ {
                    assert(h@.take(7)[0] == 'B' && h@.take(7)[1] == 'e' && h@.take(7)[2] == 'a'
                        && h@.take(7)[3] == 'r' && h@.take(7)[4] == 'e' && h@.take(7)[5] == 'r'
                        && h@.take(7)[6] == ' ');
                    assert(hv@[0] == 'B' && hv@[1] == 'e' && hv@[2] == 'a' && hv@[3] == 'r'
                        && hv@[4] == 'e' && hv@[5] == 'r' && hv@[6] == ' ');
                }
                assert(!is_bearer(h@));
            }
            return Err(AppError::UnauthorizedError("Invalid token".to_owned()));
        }
        proof {
            assert(h@.take(7) =~= "Bearer "@);
        }
        let n = h.as_str().unicode_len();
        let token = h.as_str().substring_char(7, n);
        proof {
            assert(token@ =~= h@.skip(7));
        }
        let claims = match AuthMiddleware::validate_token(token, secret) {
            Ok(c) => c,
            Err(_) => {
                return Err(AppError::UnauthorizedError("Invalid token".to_owned()));
            },
        };
        Ok(AuthenticatedUser(User { id: claims.sub, name: claims.name, role: claims.role }))
    }
}

/// Compares two string slices by their characters.
pub fn str_eq(a: &str, b: &str) -> (r: bool)
    ensures
        r == (a@ == b@),
{
    let va = chars_of(a);
    let vb = chars_of(b);
    if va.len() != vb.len() {
        return false;
    }
    let n = va.len();
    let mut i: usize = 0;
    while i < n
        invariant
            i <= n,
            n == va.len() == vb.len(),
            va@ == a@ && vb@ == b@,
            forall|q: int| 0 <= q < i ==> a@[q] == b@[q],
        decreases n - i,
    {
        if va[i] != vb[i] {
            return false;
        }
        i = i + 1;
    }
    proof {
        assert(a@ =~= b@);
    }
    true
}

/// The principal may act as an administrator exactly when its role says so.
pub fn require_admin(user: AuthenticatedUser) -> (r: Result<AuthenticatedUser, AppError>)
    ensures
        match r {
            Ok(u) => u.0 == user.0 && u.0.role@ == "admin"@,
            Err(e) => e is ForbiddenError && user.0.role@ != "admin"@,
        },
{
    if str_eq(user.0.role.as_str(), "admin") {
        Ok(user)
    } else {
        Err(AppError::ForbiddenError("Admin access required".to_owned()))
    }
}

/// Checks a login against the configured credentials: exactly a matching
/// username and password yield the administrator principal.
pub fn authenticate_user(username: &str, password: &str, cfg: &AdminConfig) -> (r: Option<User>)
    ensures
        r is Some <==> (username@ == cfg.username@ && password@ == cfg.password@),
        r matches Some(u) ==> u.id@ == "1"@ && u.name@ == cfg.display_name@ && u.role@
            == "admin"@,
{
    if str_eq(username, cfg.username.as_str()) && str_eq(password, cfg.password.as_str()) {
        Some(
            User {
                id: "1".to_owned(),
                name: cfg.display_name.clone(),
                role: "admin".to_owned(),
            },
        )
    } else {
        None
    }
}

} // verus!
