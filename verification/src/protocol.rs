//! The request/response protocol: operation codes and the one request and
//! one response shape that every call to the engine uses.  The `key` field of
//! a response doubles as the carrier for generated ids (the transaction id
//! a MULTI allocates, the watch id a WATCH allocates).
use vstd::prelude::*;

verus! {

/// Wire value of each operation, as the protocol fixes them.
pub const OP_GET: i32 = 0;

pub const OP_SET: i32 = 1;

pub const OP_DEL: i32 = 2;

pub const OP_PING: i32 = 3;

pub const OP_SUBSCRIBE: i32 = 4;

pub const OP_PUBLISH: i32 = 5;

pub const OP_SET_MASTER: i32 = 100;

pub const OP_DEL_MASTER: i32 = 101;

pub const OP_MULTI: i32 = 200;

pub const OP_EXEC: i32 = 201;

pub const OP_WATCH: i32 = 202;

pub const OP_TERMINATE: i32 = 255;

/// The operations of the protocol.  `SETMASTER` and `DELMASTER` are the
/// apply-from-master variants of `SET` and `DEL` that replication uses; any
/// unknown wire value decodes to `NOTDEFINED`.
#[derive(PartialEq, Eq, Structural, Clone, Copy, Debug)]
pub enum OPCode {
    GET,
    SET,
    DEL,
    PING,
    SUBSCRIBE,
    PUBLISH,
    SETMASTER,
    DELMASTER,
    MULTI,
    EXEC,
    WATCH,
    NOTDEFINED,
}

/// The operation a wire value decodes to.
pub open spec fn opcode_of(item: int) -> OPCode {
    if item == 0 {
        OPCode::GET
    } else if item == 1 {
        OPCode::SET
    } else if item == 2 {
        OPCode::DEL
    } else if item == 3 {
        OPCode::PING
    } else if item == 4 {
        OPCode::SUBSCRIBE
    } else if item == 5 {
        OPCode::PUBLISH
    } else if item == 100 {
        OPCode::SETMASTER
    } else if item == 101 {
        OPCode::DELMASTER
    } else if item == 200 {
        OPCode::MULTI
    } else if item == 201 {
        OPCode::EXEC
    } else if item == 202 {
        OPCode::WATCH
    } else {
        OPCode::NOTDEFINED
    }
}

impl From<i32> for OPCode {
    /// Decode a wire value.
    fn from(item: i32) -> (r: Self) {
        match item {
            0 => OPCode::GET,
            1 => OPCode::SET,
            2 => OPCode::DEL,
            3 => OPCode::PING,
            4 => OPCode::SUBSCRIBE,
            5 => OPCode::PUBLISH,
            100 => OPCode::SETMASTER,
            101 => OPCode::DELMASTER,
            200 => OPCode::MULTI,
            201 => OPCode::EXEC,
            202 => OPCode::WATCH,
            _ => OPCode::NOTDEFINED,
        }
    }
}

impl vstd::std_specs::convert::FromSpecImpl<i32> for OPCode {
    open spec fn obeys_from_spec() -> bool {
        true
    }

    open spec fn from_spec(t: i32) -> Self {
        opcode_of(t as int)
    }
}

/// One request: an operation, a key (or channel name), a value (or message),
/// and an optional transaction context.
#[derive(Debug)]
pub struct Request {
    pub opcode: i32,
    pub key: String,
    pub value: String,
    pub txn_id: Option<String>,
}

/// The mathematical shape of a request.
#[verifier::ext_equal]
pub struct ReqView {
    pub opcode: int,
    pub key: Seq<char>,
    pub value: Seq<char>,
    pub txn_id: Option<Seq<char>>,
}

impl View for Request {
    type V = ReqView;

    open spec fn view(&self) -> ReqView {
        ReqView {
            opcode: self.opcode as int,
            key: self.key@,
            value: self.value@,
            txn_id: match self.txn_id {
                Option::Some(t) => Option::Some(t@),
                Option::None => Option::None,
            },
        }
    }
}

impl DeepView for Request {
    type V = ReqView;

    open spec fn deep_view(&self) -> ReqView {
        self.view()
    }
}

impl Request {
    /// An identical copy of the request.
    pub fn duplicate(&self) -> (r: Request)
        ensures
            r@ == self@,
    {
        Request {
            opcode: self.opcode,
            key: self.key.clone(),
            value: self.value.clone(),
            txn_id: match &self.txn_id {
                Option::Some(t) => Option::Some(t.clone()),
                Option::None => Option::None,
            },
        }
    }
}

/// One response: echoes the operation, carries a key (or a generated id), a
/// value (or message), and whether the operation succeeded.
#[derive(Debug)]
pub struct Response {
    pub opcode: i32,
    pub key: String,
    pub value: String,
    pub success: bool,
}

/// The mathematical shape of a response.
#[verifier::ext_equal]
pub struct RespView {
    pub opcode: int,
    pub key: Seq<char>,
    pub value: Seq<char>,
    pub success: bool,
}

impl View for Response {
    type V = RespView;

    open spec fn view(&self) -> RespView {
        RespView {
            opcode: self.opcode as int,
            key: self.key@,
            value: self.value@,
            success: self.success,
        }
    }
}

impl DeepView for Response {
    type V = RespView;

    open spec fn deep_view(&self) -> RespView {
        self.view()
    }
}

} // verus!
