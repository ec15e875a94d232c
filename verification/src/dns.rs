//! The answer of the proxy's DNS responder.
//!
//! Every query gets the same answer: the game server's host name resolves to
//! the proxy's address.
use vstd::prelude::*;

verus! {

/// The host name the game looks up.
pub const GAME_HOST: &'static str = "gc01.st-pso.games.sega.net";

/// The time to live of the answer, in seconds.
pub const ANSWER_TTL: u32 = 59;

/// The type of a resource record.
#[derive(Clone, Copy, Debug, PartialEq, Eq, Structural)]
pub enum DnsRecordType {
    /// An IPv4 host address.
    A,
}

/// The class of a resource record.
#[derive(Clone, Copy, Debug, PartialEq, Eq, Structural)]
pub enum DnsClass {
    /// The Internet.
    Internet,
}

/// A resource record that gives a name an IPv4 address.
#[derive(Clone, Debug)]
pub struct DnsRecord {
    pub name: String,
    pub record_type: DnsRecordType,
    pub class: DnsClass,
    pub ttl: u32,
    pub address: [u8; 4],
}

/// The fields of a DNS response that the responder sets.
#[derive(Clone, Debug)]
pub struct DnsReply {
    /// The id of the query it answers.
    pub id: u16,
    /// Whether the answer is authoritative.
    pub authoritative: bool,
    /// Whether the message is a response.
    pub response: bool,
    /// Whether recursion is available.
    pub recursion_available: bool,
    /// The answer records.
    pub answer: Vec<DnsRecord>,
    /// The authority records.
    pub authority: Vec<DnsRecord>,
}

/// The record that sends the game's host name to `server_addr`: an A record
/// of the Internet class.
pub open spec fn game_record(r: DnsRecord, server_addr: [u8; 4]) -> bool {
    &&& r.name@ == GAME_HOST@
    &&& r.record_type == DnsRecordType::A
    &&& r.class == DnsClass::Internet
    &&& r.ttl == ANSWER_TTL
    &&& r.address@ == server_addr@
}

fn game_host_record(server_addr: [u8; 4]) -> (r: DnsRecord)
    ensures
        game_record(r, server_addr),
{
    DnsRecord {
        name: GAME_HOST.to_owned(),
        record_type: DnsRecordType::A,
        class: DnsClass::Internet,
        ttl: ANSWER_TTL,
        address: server_addr,
    }
}

/// The reply to the query with id `request_id`: an authoritative response,
/// without recursion, whose one answer and one authority record both send
/// the game's host name to `server_addr`.
pub fn dns_reply(request_id: u16, server_addr: [u8; 4]) -> (r: DnsReply)
    ensures
        r.id == request_id,
        r.authoritative,
        r.response,
        !r.recursion_available,
        r.answer@.len() == 1,
        game_record(r.answer@[0], server_addr),
        r.authority@.len() == 1,
        game_record(r.authority@[0], server_addr),
{
    let mut answer: Vec<DnsRecord> = Vec::new();
    answer.push(game_host_record(server_addr));
    let mut authority: Vec<DnsRecord> = Vec::new();
    authority.push(game_host_record(server_addr));
    DnsReply {
        id: request_id,
        authoritative: true,
        response: true,
        recursion_available: false,
        answer,
        authority,
    }
}

} // verus!
