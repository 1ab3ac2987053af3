//! What the HTTP endpoints answer.
use vstd::prelude::*;

use crate::text::join;
use crate::webrtc::{IceConnectionState, PeerManager};
use crate::webtransport::WebTransportState;

verus! {

/// The status of a refused request.
pub const BAD_REQUEST: u16 = 400;

/// The status of a request that the server failed to serve.
pub const INTERNAL_SERVER_ERROR: u16 = 500;

/// The status of a request that was served and has no content to return.
pub const NO_CONTENT: u16 = 204;

/// Shared application state.
pub struct AppState {
    pub peer_manager: PeerManager,
    /// The peer that connected last; candidates are for it.
    pub last_peer: Option<u64>,
    pub webtransport_port: u16,
    pub webtransport_state: Option<WebTransportState>,
}

/// A browser's offer.
#[derive(Debug)]
pub struct OfferRequest {
    pub sdp: String,
    pub sdp_type: String,
}

/// The answer to an offer.
#[derive(Debug)]
pub struct AnswerResponse {
    pub sdp: String,
    pub sdp_type: String,
}

/// A candidate that a browser found.
#[derive(Debug)]
pub struct IceCandidateRequest {
    pub candidate: String,
    pub sdp_mid: Option<String>,
    pub sdp_mline_index: Option<u16>,
}

/// The answer of the status endpoint.
#[derive(Debug)]
pub struct StatusResponse {
    pub status: String,
    pub active_peers: usize,
}

/// An error answer.
#[derive(Debug)]
pub struct HttpError {
    pub status: u16,
    pub message: String,
}

impl HttpError {
    /// Whether this is the answer with the given status, and the text followed by the detail.
    pub open spec fn says(self, status: u16, text: Seq<char>, detail: Seq<char>) -> bool {
        self.status == status && self.message@ == text + detail
    }

    /// An answer with the given status, and the text followed by the detail.
    fn with_detail(status: u16, text: &str, detail: &str) -> (r: HttpError)
        ensures
            r.says(status, text@, detail@),
    {
        HttpError { status, message: join(text, detail) }
    }
}

/// Why a text is not a session description, or `None` if it is one.
pub uninterp spec fn sdp_problem(sdp: Seq<char>) -> Option<Seq<char>>;

/// Whether the first line of the text, after empty ones, begins with `v=`.
pub open spec fn begins_with_version(sdp: Seq<char>) -> bool {
    exists|n: int|
        {
            &&& 0 <= n
            &&& n + 1 < sdp.len()
            &&& #[trigger] sdp[n] == 'v'
            &&& sdp[n + 1] == '='
            &&& forall|j: int| 0 <= j < n ==> #[trigger] sdp[j] == '\r' || sdp[j] == '\n'
        }
}

/// `RTCSessionDescription::offer` of the crate `webrtc`: parses the text as a session description.
/// The outcome depends on the text alone. A description keeps the text as it was given; an error
/// stands here as its message. What is accepted begins, after line ends, with `v=`.
#[verifier::external_body]
fn parse_session_description(sdp: String) -> (r: Result<String, String>)
    ensures
        match r {
            Ok(text) => text@ == sdp@ && sdp_problem(sdp@) is None && begins_with_version(sdp@),
            Err(e) => sdp_problem(sdp@) == Some(e@),
        },
{
    ::webrtc::peer_connection::sdp::session_description::RTCSessionDescription::offer(sdp).map(
        |description| description.sdp,
    ).map_err(|e| e.to_string())
}

/// The answer to the outcome of parsing an offer: an error is the client's.
pub fn parsed_offer(outcome: Result<String, String>) -> (r: Result<String, HttpError>)
    ensures
        match outcome {
            Ok(sdp) => r == Ok::<String, HttpError>(sdp),
            Err(e) => r matches Err(answer) && answer.says(
                BAD_REQUEST,
                "Invalid SDP offer: "@,
                e@,
            ),
        },
{
    match outcome {
        Ok(sdp) => Ok(sdp),
        Err(e) => Err(HttpError::with_detail(BAD_REQUEST, "Invalid SDP offer: ", e.as_str())),
    }
}

impl OfferRequest {
    /// Checks the offer. An offer that is not a session description is refused.
    pub fn session_description(self) -> (r: Result<String, HttpError>)
        ensures
            match sdp_problem(self.sdp@) {
                None => r matches Ok(sdp) && sdp@ == self.sdp@,
                Some(problem) => r matches Err(answer) && answer.says(
                    BAD_REQUEST,
                    "Invalid SDP offer: "@,
                    problem,
                ),
            },
            !begins_with_version(self.sdp@) ==> (r matches Err(answer) && answer.status
                == BAD_REQUEST),
    {
        parsed_offer(parse_session_description(self.sdp))
    }
}

impl AppState {
    /// The registry of peers is in order, and the peer that connected last is one that was there.
    pub open spec fn wf(self) -> bool {
        &&& self.peer_manager.wf()
        &&& self.last_peer matches Some(peer) ==> peer < self.peer_manager.next_number()
    }

    /// Starts without peers.
    pub fn new(webtransport_port: u16) -> (r: AppState)
        ensures
            r.wf(),
            r.peer_manager@ == Set::<u64>::empty(),
            r.peer_manager.states() == Map::<u64, IceConnectionState>::empty(),
            r.peer_manager.opening() == Map::<u64, IceConnectionState>::empty(),
            r.peer_manager.next_number() == 0,
            r.last_peer is None,
            r.webtransport_port == webtransport_port,
            r.webtransport_state is None,
    {
        AppState {
            peer_manager: PeerManager::new(),
            last_peer: None,
            webtransport_port,
            webtransport_state: None,
        }
    }

    /// The answer to an offer, given how the exchange with the new peer ended: with what could be
    /// read of its local description, or with an error. After a success the peer is stored, and
    /// candidates are for it. After a failure only the exchange is over.
    pub fn offer_handler(&mut self, peer: u64, exchange: Result<Option<String>, String>) -> (r:
        Result<AnswerResponse, HttpError>)
        requires
            old(self).wf(),
            old(self).peer_manager.opening().contains_key(peer),
        ensures
            final(self).wf(),
            final(self).peer_manager.next_number() == old(self).peer_manager.next_number(),
            final(self).peer_manager.shared_track() == old(self).peer_manager.shared_track(),
            final(self).webtransport_port == old(self).webtransport_port,
            final(self).webtransport_state == old(self).webtransport_state,
            final(self).peer_manager.opening() == old(self).peer_manager.opening().remove(peer),
            match exchange {
                Ok(Some(sdp)) => {
                    &&& r matches Ok(answer)
                    &&& answer.sdp == sdp
                    &&& answer.sdp_type@ == "answer"@
                    &&& final(self).last_peer == Some(peer)
                    &&& final(self).peer_manager.states() == old(
                        self,
                    ).peer_manager.states().insert(peer, old(self).peer_manager.opening()[peer])
                    &&& final(self).peer_manager.order() == old(self).peer_manager.order().push(peer)
                    &&& final(self).peer_manager@ == if old(
                        self,
                    ).peer_manager.opening()[peer].is_over() {
                        old(self).peer_manager@
                    } else {
                        old(self).peer_manager@.insert(peer)
                    }
                },
                _ => {
                    &&& r matches Err(answer)
                    &&& answer.says(
                        INTERNAL_SERVER_ERROR,
                        "Failed to create answer: "@,
                        match exchange {
                            Err(e) => e@,
                            _ => "Failed to get local description"@,
                        },
                    )
                    &&& final(self).last_peer == old(self).last_peer
                    &&& final(self).peer_manager.states() == old(self).peer_manager.states()
                    &&& final(self).peer_manager.order() == old(self).peer_manager.order()
                    &&& final(self).peer_manager@ == old(self).peer_manager@
                },
            },
    {
        let outcome = match exchange {
            Ok(local_description) => self.peer_manager.handle_offer(peer, local_description),
            Err(e) => {
                let _ = self.peer_manager.handle_offer(peer, None);
                Err(e)
            },
        };
        match outcome {
            Ok(sdp) => {
                self.last_peer = Some(peer);
                Ok(AnswerResponse { sdp, sdp_type: "answer".to_string() })
            },
            Err(e) => Err(
                HttpError::with_detail(
                    INTERNAL_SERVER_ERROR,
                    "Failed to create answer: ",
                    e.as_str(),
                ),
            ),
        }
    }

    /// The peer that a candidate is for: the one that connected last.
    pub fn candidate_peer(&self) -> (r: Result<u64, HttpError>)
        ensures
            match self.last_peer {
                Some(peer) => r == Ok::<u64, HttpError>(peer),
                None => r matches Err(answer) && answer.says(
                    BAD_REQUEST,
                    "No active peer connection"@,
                    Seq::empty(),
                ),
            },
    {
        match self.last_peer {
            Some(peer) => Ok(peer),
            None => {
                let message = "No active peer connection".to_string();
                assert(message@ =~= "No active peer connection"@ + Seq::<char>::empty());
                Err(HttpError { status: BAD_REQUEST, message })
            },
        }
    }

    /// The answer to a candidate, given how handing it to the peer that connected last ended. Where
    /// no peer has connected there is none to hand it to, and the candidate is refused.
    pub fn ice_candidate_handler(&self, outcome: Result<(), String>) -> (r: Result<u16, HttpError>)
        ensures
            match self.last_peer {
                None => r matches Err(answer) && answer.says(
                    BAD_REQUEST,
                    "No active peer connection"@,
                    Seq::empty(),
                ),
                Some(_) => match outcome {
                    Ok(_) => r == Ok::<u16, HttpError>(NO_CONTENT),
                    Err(e) => r matches Err(answer) && answer.says(
                        INTERNAL_SERVER_ERROR,
                        "Failed to add ICE candidate: "@,
                        e@,
                    ),
                },
            },
    {
        match self.candidate_peer() {
            Ok(_) => candidate_answer(outcome),
            Err(answer) => Err(answer),
        }
    }

    /// The answer of the status endpoint.
    pub fn status_handler(&self) -> (r: StatusResponse)
        requires
            self.wf(),
        ensures
            r.status@ == "running"@,
            r.active_peers == self.peer_manager@.len(),
    {
        StatusResponse {
            status: "running".to_string(),
            active_peers: self.peer_manager.peer_count(),
        }
    }
}

/// The answer to a candidate for a peer, given how handing it over ended.
fn candidate_answer(outcome: Result<(), String>) -> (r: Result<u16, HttpError>)
    ensures
        match outcome {
            Ok(_) => r == Ok::<u16, HttpError>(NO_CONTENT),
            Err(e) => r matches Err(answer) && answer.says(
                INTERNAL_SERVER_ERROR,
                "Failed to add ICE candidate: "@,
                e@,
            ),
        },
{
    match outcome {
        Ok(_) => Ok(NO_CONTENT),
        Err(e) => Err(
            HttpError::with_detail(
                INTERNAL_SERVER_ERROR,
                "Failed to add ICE candidate: ",
                e.as_str(),
            ),
        ),
    }
}

/// An error answer has the status, and the text with the detail behind it.
pub proof fn error_answers_say_why(e: HttpError, status: u16, text: Seq<char>, detail: Seq<char>)
    requires
        e.says(status, text, detail),
    ensures
        e.status == status,
        e.message@.len() == text.len() + detail.len(),
        e.message@.take(text.len() as int) == text,
        e.message@.skip(text.len() as int) == detail,
        BAD_REQUEST == 400,
        INTERNAL_SERVER_ERROR == 500,
        NO_CONTENT == 204,
{
    assert(e.message@.take(text.len() as int) =~= text);
    assert(e.message@.skip(text.len() as int) =~= detail);
}

} // verus!
