//! The runtime model's vocabulary: how entities relate, what operation an
//! edge stands for and where it is, and what kind of scope groups entities.
//! Events happen to entities, entities are connected by edges, and entities
//! live inside scopes.

use vstd::prelude::*;
use crate::clock::PTime;

verus! {

/// Causal edge kind.
#[derive(Clone, Copy, Debug, PartialEq, Eq, PartialOrd, Ord, Hash, Structural)]
pub enum EdgeKind {
    /// Contextual resource-touch relationship (actor has interacted with resource).
    Touches,
    /// Polled relationship (non-blocking observation of dependency).
    Polls,
    /// Waiting/blocked-on relationship.
    Needs,
    /// Resource ownership relationship (resource -> current holder).
    Holds,
    /// Closure/cancellation cause relationship.
    ClosedBy,
    /// Structural channel endpoint pairing (`tx -> rx`).
    ChannelLink,
    /// Structural request/response pairing.
    RpcLink,
}

/// Primitive operation represented on an operation edge.
#[derive(Clone, Copy, Debug, PartialEq, Eq, Structural)]
pub enum OperationKind {
    Send,
    Recv,
    Acquire,
    Lock,
    NotifyWait,
    OncecellWait,
}

/// Runtime state for a primitive operation edge.
#[derive(Clone, Copy, Debug, PartialEq, Eq, Structural)]
pub enum OperationState {
    Active,
    Pending,
    Done,
    Failed,
    Cancelled,
}

/// What kind of execution container a scope is.
#[derive(Clone, Copy, Debug, PartialEq, Eq, Structural)]
pub enum ScopeBody {
    Process,
    Thread,
    Task,
}

/// A point-in-time occurrence.
pub struct Event {}

/// A runtime thing that exists over time: a future, a lock, a channel end,
/// a connection leg, a socket. `body` holds what is specific to its kind.
pub struct Entity<B> {
    /// Usually `{kind}:{ulid}`.
    pub id: String,
    /// When tracking of the entity began.
    pub birth: PTime,
    /// What is specific to the entity's kind.
    pub body: B,
}

/// The name an edge kind is serialised under.
pub open spec fn edge_kind_name(k: EdgeKind) -> Seq<char> {
    match k {
        EdgeKind::Touches => "touches"@,
        EdgeKind::Polls => "polls"@,
        EdgeKind::Needs => "needs"@,
        EdgeKind::Holds => "holds"@,
        EdgeKind::ClosedBy => "closed_by"@,
        EdgeKind::ChannelLink => "channel_link"@,
        EdgeKind::RpcLink => "rpc_link"@,
    }
}

/// The name an edge kind is serialised under (snake case).
pub fn edge_kind_str(k: EdgeKind) -> (s: &'static str)
    ensures
        s@ == edge_kind_name(k),
{
    match k {
        EdgeKind::Touches => "touches",
        EdgeKind::Polls => "polls",
        EdgeKind::Needs => "needs",
        EdgeKind::Holds => "holds",
        EdgeKind::ClosedBy => "closed_by",
        EdgeKind::ChannelLink => "channel_link",
        EdgeKind::RpcLink => "rpc_link",
    }
}

/// The name an operation kind is serialised under.
pub open spec fn operation_kind_name(k: OperationKind) -> Seq<char> {
    match k {
        OperationKind::Send => "send"@,
        OperationKind::Recv => "recv"@,
        OperationKind::Acquire => "acquire"@,
        OperationKind::Lock => "lock"@,
        OperationKind::NotifyWait => "notify_wait"@,
        OperationKind::OncecellWait => "oncecell_wait"@,
    }
}

/// The name an operation kind is serialised under (snake case).
pub fn operation_kind_str(k: OperationKind) -> (s: &'static str)
    ensures
        s@ == operation_kind_name(k),
{
    match k {
        OperationKind::Send => "send",
        OperationKind::Recv => "recv",
        OperationKind::Acquire => "acquire",
        OperationKind::Lock => "lock",
        OperationKind::NotifyWait => "notify_wait",
        OperationKind::OncecellWait => "oncecell_wait",
    }
}

/// The name an operation state is serialised under.
pub open spec fn operation_state_name(s: OperationState) -> Seq<char> {
    match s {
        OperationState::Active => "active"@,
        OperationState::Pending => "pending"@,
        OperationState::Done => "done"@,
        OperationState::Failed => "failed"@,
        OperationState::Cancelled => "cancelled"@,
    }
}

/// The name an operation state is serialised under (snake case).
pub fn operation_state_str(s: OperationState) -> (r: &'static str)
    ensures
        r@ == operation_state_name(s),
{
    match s {
        OperationState::Active => "active",
        OperationState::Pending => "pending",
        OperationState::Done => "done",
        OperationState::Failed => "failed",
        OperationState::Cancelled => "cancelled",
    }
}

/// The name a scope body is serialised under.
pub open spec fn scope_body_name(b: ScopeBody) -> Seq<char> {
    match b {
        ScopeBody::Process => "process"@,
        ScopeBody::Thread => "thread"@,
        ScopeBody::Task => "task"@,
    }
}

/// The name a scope body is serialised under (snake case).
pub fn scope_body_str(b: ScopeBody) -> (r: &'static str)
    ensures
        r@ == scope_body_name(b),
{
    match b {
        ScopeBody::Process => "process",
        ScopeBody::Thread => "thread",
        ScopeBody::Task => "task",
    }
}

/// Where instrumented code lives: the manifest directory of its crate.
#[derive(Clone, Copy, Debug)]
pub struct PeepsContext {
    manifest_dir: &'static str,
}

impl PeepsContext {
    /// The manifest directory the context was made with.
    pub closed spec fn dir(self) -> Seq<char> {
        self.manifest_dir@
    }

    /// A context for the crate whose manifest directory is `manifest_dir`.
    pub fn new(manifest_dir: &'static str) -> (c: PeepsContext)
        ensures
            c.dir() == manifest_dir@,
    {
        PeepsContext { manifest_dir }
    }

    /// A context for the calling crate, named by its manifest directory.
    pub fn caller(manifest_dir: &'static str) -> (c: PeepsContext)
        ensures
            c.dir() == manifest_dir@,
    {
        Self::new(manifest_dir)
    }

    /// The manifest directory.
    pub fn manifest_dir(self) -> (d: &'static str)
        ensures
            d@ == self.dir(),
    {
        self.manifest_dir
    }
}

} // verus!
