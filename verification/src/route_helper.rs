use vstd::prelude::*;

verus! {

/// What a routing command does to the routing table.
#[derive(Debug, Clone, Copy, PartialEq, Eq, Structural)]
pub enum RouteCmdKind {
    Add,
    Replace,
    Delete,
}

/// A routing command: its kind and the command text handed to the system.
#[derive(Debug, Clone)]
pub struct RouteCmd {
    pub kind: RouteCmdKind,
    pub cmd: String,
}

impl RouteCmd {
    /// A command that adds a route.
    pub fn add(cmd: String) -> (r: Self)
        ensures
            r.kind == RouteCmdKind::Add,
            r.cmd@ == cmd@,
    {
        Self { kind: RouteCmdKind::Add, cmd }
    }

    /// A command that replaces a route.
    pub fn set(cmd: String) -> (r: Self)
        ensures
            r.kind == RouteCmdKind::Replace,
            r.cmd@ == cmd@,
    {
        Self { kind: RouteCmdKind::Replace, cmd }
    }

    /// A command that deletes a route.
    pub fn delete(cmd: String) -> (r: Self)
        ensures
            r.kind == RouteCmdKind::Delete,
            r.cmd@ == cmd@,
    {
        Self { kind: RouteCmdKind::Delete, cmd }
    }
}

} // verus!
