//! The node's decisions: what it does with a swarm event, and with a
//! transaction submitted to it.
use crate::behavior::{
    send_transaction_to_peers, Event, IdentifyEvent, RequestResponseEvent, RequestResponseMessage,
};
use crate::dag::{add_spec, parents_present, DAG};
use crate::message::{message_of, rebuilt, TransactionMessage};
use crate::p2p::{PeerManager, PeerStorage};
use crate::strmap::{str_set, strs_distinct};
use crate::transaction::{strs_view, transaction_id, Transaction, TransactionView};
use vstd::prelude::*;

verus! {

/// How a connection came about.
pub enum ConnectedPoint {
    /// We dialed the peer at `address`.
    Dialer { address: String },
    /// The peer dialed us.
    Listener,
}

/// An event of the swarm that runs the node's behaviour.
pub enum SwarmEvent {
    ConnectionEstablished { peer_id: String, endpoint: ConnectedPoint },
    Behaviour(Event),
    ConnectionClosed { peer_id: String },
    /// Any other swarm event.
    Other,
}

/// What the node does with a swarm event.
pub struct EventOutcome {
    /// The answer to send back on the channel of a received request.
    pub response: Option<TransactionMessage>,
    /// What the peer file should hold, when the peer manager learned a peer.
    pub snapshot: Option<PeerStorage>,
    /// The transaction built from a received message, and whether the DAG took it.
    pub received: Option<(Transaction, bool)>,
}

/// The transaction message that a request/response message carries.
pub open spec fn carried(message: &RequestResponseMessage) -> &TransactionMessage {
    match message {
        RequestResponseMessage::Request { request } => request,
        RequestResponseMessage::Response { response } => response,
    }
}

/// The node's decisions on a swarm event:
/// - a connection that we dialed teaches the peer manager the peer and the
///   dialed address;
/// - a received request is answered with the request itself (an
///   acknowledgement); the transaction of a received request or response is
///   built again from its data and parents and added to the DAG;
/// - an identified peer is learned with its first listen address;
/// - nothing is done for any other event.
pub fn handle_event(pm: &mut PeerManager, dag: &mut DAG, event: &SwarmEvent) -> (outcome:
    EventOutcome)
    ensures
        match event {
            SwarmEvent::ConnectionEstablished {
                peer_id,
                endpoint: ConnectedPoint::Dialer { address },
            } => {
                &&& final(pm)@ == old(pm)@.add_peer(peer_id@, address@)
                &&& outcome.snapshot matches Some(s) && s@ == final(pm)@.storage()
                &&& outcome.response is None
                &&& outcome.received is None
                &&& final(dag)@ == old(dag)@
            },
            SwarmEvent::Behaviour(
                Event::RequestResponse(RequestResponseEvent::Message { message, .. }),
            ) => {
                let t = rebuilt(carried(message)@);
                &&& final(pm)@ == old(pm)@
                &&& outcome.snapshot is None
                &&& match message {
                    RequestResponseMessage::Request { request } => outcome.response matches Some(
                        r,
                    ) && r@ == request@,
                    RequestResponseMessage::Response { .. } => outcome.response is None,
                }
                &&& outcome.received matches Some(p) && p.0@ == t && p.1 == parents_present(
                    old(dag)@,
                    t.parents,
                )
                &&& outcome.received matches Some(p) && p.0.id@ == transaction_id(
                    carried(message).transaction_data@,
                    strs_view(carried(message).parents@),
                ) && p.0.data@ == carried(message).transaction_data@ && p.0.parents@ == carried(
                    message,
                ).parents@
                &&& final(dag)@ == add_spec(old(dag)@, t)
            },
            SwarmEvent::Behaviour(
                Event::Identify(IdentifyEvent::Received { peer_id, listen_addrs }),
            ) => {
                &&& final(dag)@ == old(dag)@
                &&& outcome.response is None
                &&& outcome.received is None
                &&& if listen_addrs@.len() > 0 {
                    &&& final(pm)@ == old(pm)@.add_peer(peer_id@, listen_addrs@[0]@)
                    &&& outcome.snapshot matches Some(s) && s@ == final(pm)@.storage()
                } else {
                    &&& final(pm)@ == old(pm)@
                    &&& outcome.snapshot is None
                }
            },
            _ => {
                &&& final(pm)@ == old(pm)@
                &&& final(dag)@ == old(dag)@
                &&& outcome.response is None
                &&& outcome.snapshot is None
                &&& outcome.received is None
            },
        },
{
    match event {
        SwarmEvent::ConnectionEstablished { peer_id, endpoint } => {
            match endpoint {
                ConnectedPoint::Dialer { address } => {
                    let snapshot = pm.add_peer_with_addr(peer_id.clone(), address.clone());
                    EventOutcome { response: None, snapshot: Some(snapshot), received: None }
                },
                ConnectedPoint::Listener => {
                    EventOutcome { response: None, snapshot: None, received: None }
                },
            }
        },
        SwarmEvent::Behaviour(Event::RequestResponse(rr)) => {
            match rr {
                RequestResponseEvent::Message { message, .. } => {
                    let (response, msg) = match message {
                        RequestResponseMessage::Request { request } => (
                            Some(request.clone()),
                            request,
                        ),
                        RequestResponseMessage::Response { response } => (None, response),
                    };
                    let transaction = Transaction::from_message(msg);
                    let added = dag.add_transaction(transaction.clone());
                    EventOutcome { response, snapshot: None, received: Some((transaction, added)) }
                },
                _ => EventOutcome { response: None, snapshot: None, received: None },
            }
        },
        SwarmEvent::Behaviour(Event::Identify(IdentifyEvent::Received { peer_id, listen_addrs })) => {
            if listen_addrs.len() > 0 {
                let snapshot = pm.add_peer_with_addr(peer_id.clone(), listen_addrs[0].clone());
                EventOutcome { response: None, snapshot: Some(snapshot), received: None }
            } else {
                EventOutcome { response: None, snapshot: None, received: None }
            }
        },
        _ => EventOutcome { response: None, snapshot: None, received: None },
    }
}

/// What the node does with a submitted transaction.
pub struct Submission {
    /// The transaction built from the submitted data and parents.
    pub transaction: Transaction,
    /// Whether the DAG took it (all its parents were present).
    pub added: bool,
    /// One request per known peer, carrying the transaction's message.
    pub requests: Vec<(String, TransactionMessage)>,
}

/// The node's decisions on a transaction submitted with `data` and
/// `parents`: the transaction is built, offered to the DAG, and its message
/// is sent to every peer the peer manager knows, whether the DAG took it or
/// not.
pub fn receive_transaction(pm: &PeerManager, dag: &mut DAG, data: String, parents: Vec<String>) -> (submission: Submission)
    ensures
        submission.transaction@ == (TransactionView {
            id: transaction_id(data@, strs_view(parents@)),
            data: data@,
            parents: strs_view(parents@),
        }),
        submission.added == parents_present(old(dag)@, strs_view(parents@)),
        final(dag)@ == add_spec(old(dag)@, submission.transaction@),
        submission.requests@.len() == pm@.peers.len(),
        strs_distinct(submission.requests@.map_values(|r: (String, TransactionMessage)| r.0)),
        str_set(submission.requests@.map_values(|r: (String, TransactionMessage)| r.0))
            == pm@.peers,
        forall|i: int|
            0 <= i < submission.requests@.len() ==> (#[trigger] submission.requests@[i]).1@
                == message_of(submission.transaction@),
{
    let transaction = Transaction::new(data, parents);
    let added = dag.add_transaction(transaction.clone());
    let message = TransactionMessage::from_transaction(transaction.clone());
    let requests = send_transaction_to_peers(pm, &message);
    Submission { transaction, added, requests }
}

/// How many times a node dials the address it was started with before it
/// gives up.
pub const MAX_DIAL_ATTEMPTS: u32 = 3;

/// Seconds a node waits after a failed dial.
pub const DIAL_RETRY_DELAY_SECS: u64 = 2;

/// What a node does after dialing the address it was started with.
pub enum DialStep {
    /// The dial went through: stop dialing.
    Connected,
    /// The dial failed: `failures` dials have now failed; wait `delay_secs`
    /// seconds before deciding on the next one.
    RetryAfter { failures: u32, delay_secs: u64 },
}

/// Whether a node dials (again) after `failures` failed dials.
pub fn should_dial(failures: u32) -> (dial: bool)
    ensures
        dial == (failures < MAX_DIAL_ATTEMPTS),
{
    failures < MAX_DIAL_ATTEMPTS
}

/// The decision after a dial made when `failures` dials had failed: stop
/// once a dial went through, and otherwise count the failure and wait.
pub fn after_dial(failures: u32, succeeded: bool) -> (step: DialStep)
    requires
        failures < MAX_DIAL_ATTEMPTS,
    ensures
        succeeded ==> step is Connected,
        !succeeded ==> (step matches DialStep::RetryAfter { failures: f, delay_secs: d } && f
            == failures + 1 && d == DIAL_RETRY_DELAY_SECS),
{
    if succeeded {
        DialStep::Connected
    } else {
        DialStep::RetryAfter { failures: failures + 1, delay_secs: DIAL_RETRY_DELAY_SECS }
    }
}

} // verus!
