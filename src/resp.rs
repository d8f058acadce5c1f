use vstd::prelude::*;

verus! {

pub const STATUS_OK: i32 = 200;

pub const STATUS_BAD: i32 = 400;

pub const STATUS_ERR: i32 = 500;

pub const MSG_OK: &'static str = "ok";

pub const MSG_BAD: &'static str = "bad request";

pub const MSG_ERR: &'static str = "error";

/// A response body without data.
#[derive(Clone, Debug)]
pub struct Void {}

/// The id of a created item.
#[derive(Clone, Debug)]
pub struct IdData {
    pub id: i32,
}

/// One page of a list, with the number of items in the whole list.
#[derive(Clone, Debug)]
pub struct ListData<T> {
    pub list: Vec<T>,
    pub total: u64,
}

/// The envelope of every answer of the service: a status code, a message and
/// the data.
#[derive(Clone, Debug)]
pub struct Response<T> {
    /// 200: ok; 400: bad request; 500: error.
    pub code: i32,
    pub msg: String,
    pub data: T,
}

/// The message of an error answer with message `msg`.
pub open spec fn err_msg(msg: Seq<char>) -> Seq<char> {
    if msg.len() == 0 {
        MSG_ERR@
    } else {
        msg
    }
}

impl<T> Response<T> {
    /// A successful answer carrying `data`.
    pub fn new(data: T) -> (r: Response<T>)
        ensures
            r.code == STATUS_OK,
            r.msg@ == MSG_OK@,
            r.data == data,
    {
        Response { code: STATUS_OK, msg: MSG_OK.to_owned(), data }
    }

    /// An answer to a malformed request.
    pub fn new_bad(data: T) -> (r: Response<T>)
        ensures
            r.code == STATUS_BAD,
            r.msg@ == MSG_BAD@,
            r.data == data,
    {
        Response { code: STATUS_BAD, msg: MSG_BAD.to_owned(), data }
    }

    /// An answer to a failed request, with message `msg`, or a generic one
    /// when `msg` is empty.
    pub fn new_err(data: T, msg: String) -> (r: Response<T>)
        ensures
            r.code == STATUS_ERR,
            r.msg@ == err_msg(msg@),
            r.data == data,
    {
        let msg = if msg.as_str().is_empty() {
            MSG_ERR.to_owned()
        } else {
            msg
        };
        Response { code: STATUS_ERR, msg, data }
    }
}

/// A successful answer without data.
pub fn ok_resp() -> (r: Response<Void>)
    ensures
        r.code == STATUS_OK,
        r.msg@ == MSG_OK@,
{
    Response::new(Void {})
}

impl<T> From<(Vec<T>, u64)> for ListData<T> {
    fn from(value: (Vec<T>, u64)) -> (r: ListData<T>)
        ensures
            r.list == value.0,
            r.total == value.1,
    {
        ListData { list: value.0, total: value.1 }
    }
}

impl<T> vstd::std_specs::convert::FromSpecImpl<(Vec<T>, u64)> for ListData<T> {
    open spec fn obeys_from_spec() -> bool {
        true
    }

    open spec fn from_spec(v: (Vec<T>, u64)) -> ListData<T> {
        ListData { list: v.0, total: v.1 }
    }
}

} // verus!
