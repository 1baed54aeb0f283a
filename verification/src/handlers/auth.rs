//! Rules on credentials.

use vstd::prelude::*;
use crate::utils::errors::AppError;

verus! {

/// Fewest bytes a password may have.
pub const MIN_PASSWORD_BYTES: usize = 8;

/// Most bytes a password may have.
pub const MAX_PASSWORD_BYTES: usize = 72;

/// The message for a password that is too short.
pub open spec fn too_short_message() -> Seq<char> {
    "Password must be at least 8 characters long"@
}

/// The message for a password that is too long.
pub open spec fn too_long_message() -> Seq<char> {
    "Password too long (max 72 characters for compatibility)"@
}

/// Accepts a password of 8 to 72 bytes in its UTF-8 encoding; any other is a
/// bad request.
pub fn validate_password_length(password: &str) -> (r: Result<(), AppError>)
    ensures
        r is Ok <==> MIN_PASSWORD_BYTES <= password.len() <= MAX_PASSWORD_BYTES,
        password.len() < MIN_PASSWORD_BYTES ==> (r matches Err(
            AppError::BadRequest(m),
        ) && m@ == too_short_message()),
        password.len() > MAX_PASSWORD_BYTES ==> (r matches Err(
            AppError::BadRequest(m),
        ) && m@ == too_long_message()),
{
    if password.len() < MIN_PASSWORD_BYTES {
        return Err(AppError::BadRequest("Password must be at least 8 characters long".to_owned()));
    }
    if password.len() > MAX_PASSWORD_BYTES {
        return Err(
            AppError::BadRequest(
                "Password too long (max 72 characters for compatibility)".to_owned(),
            ),
        );
    }
    Ok(())
}

} // verus!
