//! The router's configuration.

use vstd::prelude::*;

use crate::names::{law_later_pairs_win, map_with, order_with_pairs, pair_texts, table_of, NameTable};

verus! {

/// How to launch one upstream server.
pub struct ServerConfig {
    /// The command to execute.
    pub command: String,
    /// The arguments of the command.
    pub args: Vec<String>,
    /// The environment variables to set for the command.
    pub env: NameTable<String>,
}

/// The configured upstream servers, each under its name.
pub struct AppConfig {
    pub mcp_servers: NameTable<ServerConfig>,
}

impl AppConfig {
    /// The configuration that holds `servers`. Of two servers with one name the later
    /// stays.
    pub fn new(servers: Vec<(String, ServerConfig)>) -> (config: Self)
        ensures
            config.mcp_servers@ == map_with(
                Map::<Seq<char>, ServerConfig>::empty(),
                pair_texts(servers@),
            ),
            config.mcp_servers.order() == order_with_pairs(Seq::empty(), pair_texts(servers@)),
            forall|i: int|
                0 <= i < servers@.len() ==> config.mcp_servers@.contains_key(
                    (#[trigger] servers@[i]).0@,
                ),
    {
        proof {
            assert forall|i: int| 0 <= i < servers@.len() implies map_with(
                Map::<Seq<char>, ServerConfig>::empty(),
                pair_texts(servers@),
            ).contains_key((#[trigger] servers@[i]).0@) by {
                law_later_pairs_win(Map::empty(), servers@, i, servers@[i].0@);
            }
        }
        AppConfig { mcp_servers: table_of(servers) }
    }
}

} // verus!
