//! The command registry as the core sees it: one identifier per
//! user-facing command with its access requirements.  All
//! chat-protocol concerns -- parsing options, rendering replies,
//! dispatching by name -- live with the front end outside this crate,
//! which asks the core only whether a user's roles permit a command.

use vstd::prelude::*;

verus! {

/// Who may run a command.
#[allow(non_camel_case_types)]
#[derive(Clone, Copy, Debug, PartialEq, Eq, Structural)]
pub enum AccessLevels {
    ADMIN,
    TRADER,
    ANY,
}

impl AccessLevels {
    /// Whether a user holding the given roles clears this level.
    pub fn permits(self, has_admin_role: bool, has_trader_role: bool) -> (r: bool)
        ensures
            r == match self {
                AccessLevels::ADMIN => has_admin_role,
                AccessLevels::TRADER => has_trader_role,
                AccessLevels::ANY => true,
            },
    {
        match self {
            AccessLevels::ADMIN => has_admin_role,
            AccessLevels::TRADER => has_trader_role,
            AccessLevels::ANY => true,
        }
    }
}

/// How a command is to be run and answered.
#[allow(non_snake_case)]
#[derive(Clone, Copy, Debug, PartialEq, Eq, Structural)]
pub struct CommandConfig {
    pub accessLevel: AccessLevels,
    pub ephermal: bool,
    pub fetch_reply: bool,
}

impl Default for CommandConfig {
    /// Anybody may run it, replies are public, and the reply is
    /// fetched.
    fn default() -> (r: CommandConfig)
        ensures
            r.accessLevel == AccessLevels::ANY,
            !r.ephermal,
            r.fetch_reply,
    {
        CommandConfig { accessLevel: AccessLevels::ANY, ephermal: false, fetch_reply: true }
    }
}

/// Registers an operator.
#[derive(Clone, Copy, Debug, PartialEq, Eq, Structural)]
pub struct CreateUserCommand;

impl CreateUserCommand {
    pub fn new() -> (r: Self) {
        CreateUserCommand {}
    }

    /// Requires the trader role.
    pub fn config(&self) -> (r: CommandConfig)
        ensures
            r.accessLevel == AccessLevels::TRADER,
    {
        CommandConfig { accessLevel: AccessLevels::TRADER, ..Default::default() }
    }
}

/// Lists the configuration table.
#[derive(Clone, Copy, Debug, PartialEq, Eq, Structural)]
pub struct ListConfigCommand;

impl ListConfigCommand {
    pub fn new() -> (r: Self) {
        ListConfigCommand {}
    }

    /// Requires the trader role.
    pub fn config(&self) -> (r: CommandConfig)
        ensures
            r.accessLevel == AccessLevels::TRADER,
    {
        CommandConfig { accessLevel: AccessLevels::TRADER, ..Default::default() }
    }
}

/// Updates one configuration value.
#[derive(Clone, Copy, Debug, PartialEq, Eq, Structural)]
pub struct SetConfigCommand;

impl SetConfigCommand {
    pub fn new() -> (r: Self) {
        SetConfigCommand {}
    }

    /// Requires the admin role.
    pub fn config(&self) -> (r: CommandConfig)
        ensures
            r.accessLevel == AccessLevels::ADMIN,
    {
        CommandConfig { accessLevel: AccessLevels::ADMIN, ..Default::default() }
    }
}

/// Creates or cancels a reservation.
#[derive(Clone, Copy, Debug, PartialEq, Eq, Structural)]
pub struct ReserveCommand;

impl ReserveCommand {
    pub fn new() -> (r: Self) {
        ReserveCommand {}
    }

    /// Requires the trader role.
    pub fn config(&self) -> (r: CommandConfig)
        ensures
            r.accessLevel == AccessLevels::TRADER,
    {
        CommandConfig { accessLevel: AccessLevels::TRADER, ..Default::default() }
    }
}

/// Reports worked minutes and realized profit per operator.
#[derive(Clone, Copy, Debug, PartialEq, Eq, Structural)]
pub struct SummaryCommand;

impl SummaryCommand {
    pub fn new() -> (r: Self) {
        SummaryCommand {}
    }

    /// Requires the trader role.
    pub fn config(&self) -> (r: CommandConfig)
        ensures
            r.accessLevel == AccessLevels::TRADER,
    {
        CommandConfig { accessLevel: AccessLevels::TRADER, ..Default::default() }
    }
}

} // verus!
