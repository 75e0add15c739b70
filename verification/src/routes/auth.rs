//! The login endpoint: checked credentials yield a signed bearer token and
//! the principal; anything else is the one unauthorized outcome.

use vstd::prelude::*;
use crate::auth::{
    authenticate_user, claims_json, jwt_of, AdminConfig, AuthMiddleware, ClaimsV, User,
};
use crate::clock::now_unix;
use crate::error::AppError;

verus! {

pub struct LoginRequest {
    pub username: String,
    pub password: String,
}

#[derive(Debug)]
pub struct LoginResponse {
    pub success: bool,
    pub token: String,
    pub user: User,
}

/// Logs a user in: exactly a matching username and password yield a token
/// for the administrator principal; wrong credentials are unauthorized, and
/// only a clock failure is an internal error.
pub fn login(req: &LoginRequest, cfg: &AdminConfig, secret: &str) -> (r: Result<
    LoginResponse,
    AppError,
>)
    ensures
        !(req.username@ == cfg.username@ && req.password@ == cfg.password@) ==> (r matches Err(e)
            && e is UnauthorizedError),
        r matches Ok(resp) ==> ({
            &&& req.username@ == cfg.username@ && req.password@ == cfg.password@
            &&& resp.success
            &&& resp.user.id@ == "1"@ && resp.user.name@ == cfg.display_name@
                && resp.user.role@ == "admin"@
            &&& exists|iat: int|
                resp.token@ == jwt_of(
                    #[trigger] claims_json(
                        ClaimsV {
                            sub: resp.user.id@,
                            name: resp.user.name@,
                            role: resp.user.role@,
                            exp: iat + 86400,
                            iat: iat,
                        },
                    ),
                    secret@,
                )
        }),
        r matches Err(e) ==> (e is UnauthorizedError || e is InternalError),
        r matches Err(e) && e is UnauthorizedError ==> !(req.username@ == cfg.username@
            && req.password@ == cfg.password@),
{
    let user = match authenticate_user(req.username.as_str(), req.password.as_str(), cfg) {
        Some(u) => u,
        None => {
            return Err(AppError::UnauthorizedError("Invalid username or password".to_owned()));
        },
    };
    let now = now_unix();
    let token = match AuthMiddleware::generate_token(&user, secret, now) {
        Ok(t) => t,
        Err(_) => {
            return Err(AppError::InternalError("Failed to generate token".to_owned()));
        },
    };
    Ok(LoginResponse { success: true, token, user })
}

} // verus!
