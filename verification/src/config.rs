//! Client and server configuration. The noise parameters of cover traffic are
//! floating-point and are kept beside these by the application.
use vstd::prelude::*;

verus! {

/// Server configuration.
#[derive(Clone, Debug)]
pub struct ServerConfig {
    /// Index of this server in the chain (0-based).
    pub server_index: usize,
    /// Number of servers in the chain.
    pub num_servers: usize,
    /// Address this server listens on (e.g., "127.0.0.1:5000").
    pub listen_addr: String,
    /// Address of the next server in the chain (or client for the last server).
    pub next_addr: String,
    /// Raw secret key bytes.
    pub secret_key: Vec<u8>,
    /// Public key for this server.
    pub public_key: Vec<u8>,
    /// Number of dead drops per round.
    pub num_dead_drops: usize,
}

/// Client configuration.
#[derive(Clone, Debug)]
pub struct ClientConfig {
    /// Client's public key.
    pub public_key: Vec<u8>,
    /// Server chain: ordered list of server public keys.
    pub server_chain: Vec<Vec<u8>>,
    /// Number of dead drops per round.
    pub num_dead_drops: usize,
    /// How many rounds to wait for a dialing response before timing out.
    pub dialing_timeout_rounds: u64,
    /// Maximum number of rounds for a conversation.
    pub max_conversation_rounds: u64,
}

impl Default for ServerConfig {
    fn default() -> (r: Self)
        ensures
            r.server_index == 0,
            r.num_servers == 1,
            r.listen_addr@ == "127.0.0.1:5000"@,
            r.next_addr@ == "127.0.0.1:5001"@,
            r.secret_key@ == crate::bytes::zeros(32),
            r.public_key@ == crate::bytes::zeros(32),
            r.num_dead_drops == 100_000,
    {
        let r = ServerConfig {
            server_index: 0,
            num_servers: 1,
            listen_addr: "127.0.0.1:5000".to_string(),
            next_addr: "127.0.0.1:5001".to_string(),
            secret_key: vec![0u8; 32],
            public_key: vec![0u8; 32],
            num_dead_drops: 100_000,
        };
        assert(r.secret_key@ =~= crate::bytes::zeros(32));
        assert(r.public_key@ =~= crate::bytes::zeros(32));
        r
    }
}

impl Default for ClientConfig {
    fn default() -> (r: Self)
        ensures
            r.public_key@ == crate::bytes::zeros(32),
            r.server_chain@.len() == 0,
            r.num_dead_drops == 100_000,
            r.dialing_timeout_rounds == 100,
            r.max_conversation_rounds == 1000,
    {
        let r = ClientConfig {
            public_key: vec![0u8; 32],
            server_chain: Vec::new(),
            num_dead_drops: 100_000,
            dialing_timeout_rounds: 100,
            max_conversation_rounds: 1000,
        };
        assert(r.public_key@ =~= crate::bytes::zeros(32));
        r
    }
}

} // verus!
