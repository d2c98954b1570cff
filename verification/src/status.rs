use vstd::prelude::*;

verus! {

/// The reason phrase written after a status code in the status line.
/// Codes without a phrase of their own are answered with "OK".
pub open spec fn reason_phrase(status: u16) -> Seq<char> {
    if status == 200 {
        "OK"@
    } else if status == 201 {
        "Created"@
    } else if status == 202 {
        "Accepted"@
    } else if status == 204 {
        "No Content"@
    } else if status == 301 {
        "Moved Permanently"@
    } else if status == 302 {
        "Found"@
    } else if status == 304 {
        "Not Modified"@
    } else if status == 400 {
        "Bad Request"@
    } else if status == 401 {
        "Unauthorized"@
    } else if status == 403 {
        "Forbidden"@
    } else if status == 404 {
        "Not Found"@
    } else if status == 405 {
        "Method Not Allowed"@
    } else if status == 409 {
        "Conflict"@
    } else if status == 422 {
        "Unprocessable Entity"@
    } else if status == 429 {
        "Too Many Requests"@
    } else if status == 500 {
        "Internal Server Error"@
    } else if status == 502 {
        "Bad Gateway"@
    } else if status == 503 {
        "Service Unavailable"@
    } else {
        "OK"@
    }
}

/// Return a reason phrase for common HTTP status codes.
pub fn status_reason(status: u16) -> (phrase: &'static str)
    ensures
        phrase@ == reason_phrase(status),
{
    match status {
        200 => "OK",
        201 => "Created",
        202 => "Accepted",
        204 => "No Content",
        301 => "Moved Permanently",
        302 => "Found",
        304 => "Not Modified",
        400 => "Bad Request",
        401 => "Unauthorized",
        403 => "Forbidden",
        404 => "Not Found",
        405 => "Method Not Allowed",
        409 => "Conflict",
        422 => "Unprocessable Entity",
        429 => "Too Many Requests",
        500 => "Internal Server Error",
        502 => "Bad Gateway",
        503 => "Service Unavailable",
        _ => "OK",
    }
}

} // verus!
