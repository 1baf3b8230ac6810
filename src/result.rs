use vstd::prelude::*;

verus! {

/// A business outcome: a stable numeric code and its fixed message.
pub struct Error {
    pub code: i32,
    pub message: &'static str,
}

impl Error {
    /// Code 0: the operation succeeded.
    pub fn success() -> (r: Error)
        ensures
            r.code == 0,
            r.message@ == "Success"@,
    {
        Error { code: 0, message: "Success" }
    }

    /// Code 10001: a request parameter is missing or malformed.
    pub fn invalid_parameter() -> (r: Error)
        ensures
            r.code == 10001,
            r.message@ == "Invalid parameter"@,
    {
        Error { code: 10001, message: "Invalid parameter" }
    }

    /// Code 10002: no record has the requested identity.
    pub fn data_not_found() -> (r: Error)
        ensures
            r.code == 10002,
            r.message@ == "Data not found"@,
    {
        Error { code: 10002, message: "Data not found" }
    }

    /// Code 10003: the stream is already wanted running.
    pub fn already_pushing() -> (r: Error)
        ensures
            r.code == 10003,
            r.message@ == "Already pushing"@,
    {
        Error { code: 10003, message: "Already pushing" }
    }

    /// Code 10004: the stream is already wanted stopped.
    pub fn not_pushing() -> (r: Error)
        ensures
            r.code == 10004,
            r.message@ == "Not pushing"@,
    {
        Error { code: 10004, message: "Not pushing" }
    }

    /// Code 10005: the login credentials do not match.
    pub fn user_password_error() -> (r: Error)
        ensures
            r.code == 10005,
            r.message@ == "Wrong user name or password"@,
    {
        Error { code: 10005, message: "Wrong user name or password" }
    }

    /// Code 10006: the old password given for a change does not match.
    pub fn old_password_error() -> (r: Error)
        ensures
            r.code == 10006,
            r.message@ == "Old password error"@,
    {
        Error { code: 10006, message: "Old password error" }
    }

    /// Code 50001: the login session could not be stored.
    pub fn session_set_error() -> (r: Error)
        ensures
            r.code == 50001,
            r.message@ == "Session set error"@,
    {
        Error { code: 50001, message: "Session set error" }
    }

    /// Code 60001: the registry failed.
    pub fn db_operation_error() -> (r: Error)
        ensures
            r.code == 60001,
            r.message@ == "Database operational error"@,
    {
        Error { code: 60001, message: "Database operational error" }
    }
}

/// The response envelope `{code, msg, data?}` of the control surface.
pub struct Result<T> {
    pub code: i32,
    pub msg: String,
    pub data: Option<T>,
}

impl Result<()> {
    /// The success envelope without data.
    pub fn success() -> (r: Self)
        ensures
            r.code == 0,
            r.msg@ == "Success"@,
            r.data is None,
    {
        let e = Error::success();
        Result { code: e.code, msg: String::from_str(e.message), data: None }
    }

    /// The envelope of an error, with the error's own message.
    pub fn error(e: Error) -> (r: Self)
        ensures
            r.code == e.code,
            r.msg@ == e.message@,
            r.data is None,
    {
        Result { code: e.code, msg: String::from_str(e.message), data: None }
    }

    /// The envelope of an error whose message is followed by a space and a detail.
    pub fn error_description(e: Error, msg: &str) -> (r: Self)
        ensures
            r.code == e.code,
            r.msg@ == e.message@ + " "@ + msg@,
            r.data is None,
    {
        let mut text = String::from_str(e.message);
        text.append(" ");
        text.append(msg);
        Result { code: e.code, msg: text, data: None }
    }
}

impl<T> Result<T> {
    /// The success envelope carrying `data`.
    pub fn success_return_data(data: T) -> (r: Self)
        ensures
            r.code == 0,
            r.msg@ == "Success"@,
            r.data == Some(data),
    {
        let e = Error::success();
        Result { code: e.code, msg: String::from_str(e.message), data: Some(data) }
    }
}

/// One page of a listing, with the total number of records.
pub struct Page<T> {
    pub total: u64,
    pub rows: Option<T>,
}

impl<T> Page<T> {
    pub fn new(total: u64, rows: T) -> (r: Self)
        ensures
            r.total == total,
            r.rows == Some(rows),
    {
        Page { total, rows: Some(rows) }
    }
}

} // verus!
