pub mod leader_election;
pub mod server;
