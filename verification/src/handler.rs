//! The command router: map an interaction's command and subcommand name
//! to the handler to run, or to the single error reply. Exactly one
//! response goes out per interaction — the handler's own confirmation on
//! success, or the router's error reply on failure, never both.

use vstd::prelude::*;

use crate::order::str_eq;

verus! {

/// The blog subcommand a routed interaction runs.
#[derive(PartialEq, Eq, Structural, Clone, Copy, Debug)]
pub enum Route {
    Create,
    Nick,
    Delete,
    Webhook,
}

/// The event handler's decision core. It carries the one piece of
/// injected configuration: the role whose members are denied sending
/// into a fresh blog channel.
pub struct Handler {
    pub deny_role: u64,
}

impl Handler {
    /// A handler with the injected role configuration.
    pub fn new(deny_role: u64) -> (r: Handler)
        ensures
            r.deny_role == deny_role,
    {
        Handler { deny_role }
    }

    /// Map a command name and its first option's name (empty when the
    /// interaction carries no option) to the handler to run. An unknown
    /// pair becomes the text of the single error reply.
    pub fn route(&self, command: &String, subcommand: &String) -> (r: Result<Route, String>)
        ensures
            match r {
                Ok(route) => {
                    &&& command@ == "blog"@
                    &&& (route is Create <==> subcommand@ == "create"@)
                    &&& (route is Nick <==> subcommand@ == "nick"@)
                    &&& (route is Delete <==> subcommand@ == "delete"@)
                    &&& (route is Webhook <==> subcommand@ == "webhook"@)
                },
                Err(msg) => {
                    &&& command@ == "blog"@ ==> {
                        &&& subcommand@ != "create"@
                        &&& subcommand@ != "nick"@
                        &&& subcommand@ != "delete"@
                        &&& subcommand@ != "webhook"@
                        &&& msg@ == "Invalid blog subcommand: '"@ + subcommand@ + "'"@
                    }
                    &&& command@ != "blog"@ ==> msg@ == "Invalid command: '"@ + command@ + "'"@
                },
            },
    {
        proof {
            reveal_strlit("create");
            reveal_strlit("nick");
            reveal_strlit("delete");
            reveal_strlit("webhook");
            assert("create"@[0] == 'c' && "nick"@[0] == 'n' && "delete"@[0] == 'd'
                && "webhook"@[0] == 'w');
        }
        if str_eq(command.as_str(), "blog") {
            if str_eq(subcommand.as_str(), "create") {
                Ok(Route::Create)
            } else if str_eq(subcommand.as_str(), "nick") {
                Ok(Route::Nick)
            } else if str_eq(subcommand.as_str(), "delete") {
                Ok(Route::Delete)
            } else if str_eq(subcommand.as_str(), "webhook") {
                Ok(Route::Webhook)
            } else {
                Err(
                    String::from_str("Invalid blog subcommand: '").concat(
                        subcommand.as_str(),
                    ).concat("'"),
                )
            }
        } else {
            Err(String::from_str("Invalid command: '").concat(command.as_str()).concat("'"))
        }
    }
}

} // verus!
