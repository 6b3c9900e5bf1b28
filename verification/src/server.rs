//! The control plane: routing requests to its operations, and the reference
//! implementation that keeps everything in memory.
//!
//! [`Router`] turns a request into a response by calling a [`ControlPlane`].
//! [`MemoryControlPlane`] answers every operation from the domain model alone;
//! its ports have a socket path but no socket.

use vstd::prelude::*;

pub use crate::memory::MemoryControlPlane;

use crate::json;
use crate::json::Value;
use crate::protocol;
use crate::protocol::{RawRequest, Request, Response, RpcError};
use crate::text::same_text;

verus! {

/// The host ports that are published by default, both ends included. They lie
/// below the ports that Linux picks for outgoing connections.
pub const DEFAULT_PUBLISH_RANGE: (u16, u16) = (20_000, 21_000);

// -- operations ---------------------------------------------------------------

/// The operations of a control plane.
#[derive(Debug, Clone, Copy, PartialEq, Eq, Structural)]
pub enum Operation {
    CreateNetwork,
    DeleteNetwork,
    GetNetwork,
    CreatePort,
    DeletePort,
    GetPort,
    AttachPort,
    DetachPort,
    AllocateIp,
    ReleaseIp,
    PublishPort,
    UnpublishPort,
}

/// The method that asks for an operation.
pub open spec fn method_text(op: Operation) -> Seq<char> {
    match op {
        Operation::CreateNetwork => "CreateNetwork"@,
        Operation::DeleteNetwork => "DeleteNetwork"@,
        Operation::GetNetwork => "GetNetwork"@,
        Operation::CreatePort => "CreatePort"@,
        Operation::DeletePort => "DeletePort"@,
        Operation::GetPort => "GetPort"@,
        Operation::AttachPort => "AttachPort"@,
        Operation::DetachPort => "DetachPort"@,
        Operation::AllocateIp => "AllocateIP"@,
        Operation::ReleaseIp => "ReleaseIP"@,
        Operation::PublishPort => "PublishPort"@,
        Operation::UnpublishPort => "UnpublishPort"@,
    }
}

impl Operation {
    /// The operation that `method` asks for.
    pub fn named(method: &str) -> (r: Option<Operation>)
        ensures
            match r {
                Some(op) => method_text(op) == method@,
                None => forall|op: Operation| #[trigger] method_text(op) != method@,
            },
    {
        if same_text(method, "CreateNetwork") {
            Some(Operation::CreateNetwork)
        } else if same_text(method, "DeleteNetwork") {
            Some(Operation::DeleteNetwork)
        } else if same_text(method, "GetNetwork") {
            Some(Operation::GetNetwork)
        } else if same_text(method, "CreatePort") {
            Some(Operation::CreatePort)
        } else if same_text(method, "DeletePort") {
            Some(Operation::DeletePort)
        } else if same_text(method, "GetPort") {
            Some(Operation::GetPort)
        } else if same_text(method, "AttachPort") {
            Some(Operation::AttachPort)
        } else if same_text(method, "DetachPort") {
            Some(Operation::DetachPort)
        } else if same_text(method, "AllocateIP") {
            Some(Operation::AllocateIp)
        } else if same_text(method, "ReleaseIP") {
            Some(Operation::ReleaseIp)
        } else if same_text(method, "PublishPort") {
            Some(Operation::PublishPort)
        } else if same_text(method, "UnpublishPort") {
            Some(Operation::UnpublishPort)
        } else {
            None
        }
    }
}

/// No two operations are asked for by one method.
pub proof fn law_methods_are_distinct(a: Operation, b: Operation)
    ensures
        method_text(a) == method_text(b) <==> a == b,
{
    reveal_strlit("CreateNetwork");
    reveal_strlit("DeleteNetwork");
    reveal_strlit("GetNetwork");
    reveal_strlit("CreatePort");
    reveal_strlit("DeletePort");
    reveal_strlit("GetPort");
    reveal_strlit("AttachPort");
    reveal_strlit("DetachPort");
    reveal_strlit("AllocateIP");
    reveal_strlit("ReleaseIP");
    reveal_strlit("PublishPort");
    reveal_strlit("UnpublishPort");
    assert("CreateNetwork"@.len() == 13 && "DeleteNetwork"@.len() == 13 && "UnpublishPort"@.len()
        == 13);
    assert("CreateNetwork"@[0] == 'C' && "DeleteNetwork"@[0] == 'D' && "UnpublishPort"@[0] == 'U');
    assert("GetNetwork"@.len() == 10 && "CreatePort"@.len() == 10 && "DeletePort"@.len() == 10
        && "AttachPort"@.len() == 10 && "DetachPort"@.len() == 10 && "AllocateIP"@.len() == 10);
    assert("GetNetwork"@[0] == 'G' && "CreatePort"@[0] == 'C' && "DeletePort"@[0] == 'D'
        && "DeletePort"@[2] == 'l' && "DetachPort"@[0] == 'D' && "DetachPort"@[2] == 't'
        && "AttachPort"@[0] == 'A' && "AttachPort"@[1] == 't' && "AllocateIP"@[0] == 'A'
        && "AllocateIP"@[1] == 'l');
    assert("GetPort"@.len() == 7 && "ReleaseIP"@.len() == 9 && "PublishPort"@.len() == 11);
}

/// What an operation gives: a result or an error.
pub type Outcome = Result<json::Json, RpcError>;

/// The content of what an operation gives.
pub open spec fn outcome(r: Result<Value, RpcError>) -> Outcome {
    match r {
        Ok(v) => Ok(v@),
        Err(e) => Err(e),
    }
}

/// The operations that are served over the control socket.
pub trait ControlPlane: Sized {
    /// Whether `op` with the parameters `p` may take `before` to `after` and
    /// give `r`. It may have any effect, unless a control plane says otherwise.
    open spec fn effect(
        before: Self,
        op: Operation,
        p: json::Json,
        after: Self,
        r: Outcome,
    ) -> bool {
        true
    }

    fn create_network(&mut self, params: &Value) -> (r: Result<Value, RpcError>)
        ensures
            Self::effect(
                *old(self),
                Operation::CreateNetwork,
                params@,
                *final(self),
                outcome(r),
            ),
    ;

    fn delete_network(&mut self, params: &Value) -> (r: Result<Value, RpcError>)
        ensures
            Self::effect(
                *old(self),
                Operation::DeleteNetwork,
                params@,
                *final(self),
                outcome(r),
            ),
    ;

    fn get_network(&mut self, params: &Value) -> (r: Result<Value, RpcError>)
        ensures
            Self::effect(*old(self), Operation::GetNetwork, params@, *final(self), outcome(r)),
    ;

    fn create_port(&mut self, params: &Value) -> (r: Result<Value, RpcError>)
        ensures
            Self::effect(*old(self), Operation::CreatePort, params@, *final(self), outcome(r)),
    ;

    fn delete_port(&mut self, params: &Value) -> (r: Result<Value, RpcError>)
        ensures
            Self::effect(*old(self), Operation::DeletePort, params@, *final(self), outcome(r)),
    ;

    fn get_port(&mut self, params: &Value) -> (r: Result<Value, RpcError>)
        ensures
            Self::effect(*old(self), Operation::GetPort, params@, *final(self), outcome(r)),
    ;

    fn attach_port(&mut self, params: &Value) -> (r: Result<Value, RpcError>)
        ensures
            Self::effect(*old(self), Operation::AttachPort, params@, *final(self), outcome(r)),
    ;

    fn detach_port(&mut self, params: &Value) -> (r: Result<Value, RpcError>)
        ensures
            Self::effect(*old(self), Operation::DetachPort, params@, *final(self), outcome(r)),
    ;

    fn allocate_ip(&mut self, params: &Value) -> (r: Result<Value, RpcError>)
        ensures
            Self::effect(*old(self), Operation::AllocateIp, params@, *final(self), outcome(r)),
    ;

    fn release_ip(&mut self, params: &Value) -> (r: Result<Value, RpcError>)
        ensures
            Self::effect(*old(self), Operation::ReleaseIp, params@, *final(self), outcome(r)),
    ;

    /// Publishes a port of a VM on a host port, and gives the host port.
    fn publish_port(&mut self, params: &Value) -> (r: Result<Value, RpcError>)
        ensures
            Self::effect(*old(self), Operation::PublishPort, params@, *final(self), outcome(r)),
    ;

    fn unpublish_port(&mut self, params: &Value) -> (r: Result<Value, RpcError>)
        ensures
            Self::effect(
                *old(self),
                Operation::UnpublishPort,
                params@,
                *final(self),
                outcome(r),
            ),
    ;
}

// -- routing ------------------------------------------------------------------

/// Routes requests to a control plane.
pub struct Router<C: ControlPlane> {
    cp: C,
}

/// Whether the request for `method` with the parameters `p` may take the
/// control plane `before` to `after` and give `r`: it does what the operation
/// does that the method asks for; where there is none, nothing, and the method
/// is not found.
pub open spec fn routed<C: ControlPlane>(
    before: C,
    method: Seq<char>,
    p: json::Json,
    after: C,
    r: Outcome,
) -> bool {
    if exists|op: Operation| #[trigger] method_text(op) == method {
        exists|op: Operation| #[trigger]
            method_text(op) == method && C::effect(before, op, p, after, r)
    } else {
        r == Err::<json::Json, RpcError>(RpcError::MethodNotFound) && after == before
    }
}

/// The parameters of a request: null where there are none.
pub open spec fn given_params(params: Option<Value>) -> json::Json {
    match params {
        Some(v) => v@,
        None => json::Json::Null,
    }
}

impl<C: ControlPlane> Router<C> {
    /// The control plane that requests are routed to.
    pub closed spec fn plane(self) -> C {
        self.cp
    }

    /// A router to `cp`.
    pub fn new(cp: C) -> (r: Self)
        ensures
            r.plane() == cp,
    {
        Router { cp }
    }

    /// Answers a request. Every failure is a response that carries the error
    /// and the identifier of the request.
    pub fn dispatch(&mut self, req: Request) -> (r: Response)
        ensures
            exists|o: Outcome| #[trigger]
                routed(
                    old(self).plane(),
                    req.method@,
                    given_params(req.params),
                    final(self).plane(),
                    o,
                ) && r@ == protocol::response_of(req.id@, o),
    {
        broadcast use json::lemma_value_view;

        let params = match req.params {
            Some(v) => v,
            None => Value::Null,
        };
        let result = match Operation::named(req.method.as_str()) {
            Some(op) => match op {
                Operation::CreateNetwork => self.cp.create_network(&params),
                Operation::DeleteNetwork => self.cp.delete_network(&params),
                Operation::GetNetwork => self.cp.get_network(&params),
                Operation::CreatePort => self.cp.create_port(&params),
                Operation::DeletePort => self.cp.delete_port(&params),
                Operation::GetPort => self.cp.get_port(&params),
                Operation::AttachPort => self.cp.attach_port(&params),
                Operation::DetachPort => self.cp.detach_port(&params),
                Operation::AllocateIp => self.cp.allocate_ip(&params),
                Operation::ReleaseIp => self.cp.release_ip(&params),
                Operation::PublishPort => self.cp.publish_port(&params),
                Operation::UnpublishPort => self.cp.unpublish_port(&params),
            },
            None => Err(RpcError::MethodNotFound),
        };
        assert(routed(
            old(self).plane(),
            req.method@,
            given_params(req.params),
            self.plane(),
            outcome(result),
        ));
        match result {
            Ok(v) => Response::ok(req.id, v),
            Err(e) => Response::err(req.id, e),
        }
    }

    /// Answers what a connection sent: a request is dispatched; anything else
    /// is answered with why it is no request, under the identifier null.
    pub fn answer(&mut self, raw: Option<RawRequest>) -> (r: Response)
        ensures
            match protocol::request_error(raw) {
                Some(e) => {
                    &&& r@ == protocol::response_of(json::Json::Null, Err(e))
                    &&& final(self).plane() == old(self).plane()
                },
                None => exists|o: Outcome| #[trigger]
                    routed(
                        old(self).plane(),
                        raw->0.method->0@,
                        given_params(raw->0.params),
                        final(self).plane(),
                        o,
                    ) && r@ == protocol::response_of(raw->0.id->0@, o),
            },
    {
        broadcast use json::lemma_value_view;

        match Request::parse(raw) {
            Ok(req) => {
                assert(req.method@ == raw->0.method->0@);
                assert(req.id@ == raw->0.id->0@);
                self.dispatch(req)
            },
            Err(e) => Response::err(Value::Null, e),
        }
    }

    /// The control plane, for its owner to change.
    pub fn control_plane(&mut self) -> (r: &mut C)
        ensures
            *r == old(self).plane(),
            final(self).plane() == *final(r),
    {
        &mut self.cp
    }
}

// -- laws ---------------------------------------------------------------------

/// Every request for one of the methods does what that operation does, with the
/// parameters of the request, and gives what that gives; a request for anything
/// else changes nothing, and its method is not found.
pub proof fn law_every_method_is_routed<C: ControlPlane>(
    before: C,
    method: Seq<char>,
    p: json::Json,
    after: C,
    r: Outcome,
    op: Operation,
)
    requires
        routed(before, method, p, after, r),
    ensures
        method == method_text(op) ==> C::effect(before, op, p, after, r),
        (forall|x: Operation| #[trigger] method_text(x) != method) ==> after == before && r == Err::<
            json::Json,
            RpcError,
        >(RpcError::MethodNotFound),
{
    if method == method_text(op) {
        let x = choose|x: Operation| #[trigger]
            method_text(x) == method && C::effect(before, x, p, after, r);
        law_methods_are_distinct(x, op);
    }
}

/// The methods that ask for the operations.
pub proof fn law_methods_of_operations()
    ensures
        method_text(Operation::CreateNetwork) == "CreateNetwork"@,
        method_text(Operation::DeleteNetwork) == "DeleteNetwork"@,
        method_text(Operation::GetNetwork) == "GetNetwork"@,
        method_text(Operation::CreatePort) == "CreatePort"@,
        method_text(Operation::DeletePort) == "DeletePort"@,
        method_text(Operation::GetPort) == "GetPort"@,
        method_text(Operation::AttachPort) == "AttachPort"@,
        method_text(Operation::DetachPort) == "DetachPort"@,
        method_text(Operation::AllocateIp) == "AllocateIP"@,
        method_text(Operation::ReleaseIp) == "ReleaseIP"@,
        method_text(Operation::PublishPort) == "PublishPort"@,
        method_text(Operation::UnpublishPort) == "UnpublishPort"@,
{
}

/// The parameters of a request are handed on as they are, and as null where
/// there are none.
pub proof fn law_parameters_are_handed_on(v: Value)
    ensures
        given_params(Some(v)) == v@,
        given_params(None) == json::Json::Null,
{
}

} // verus!
