use vstd::prelude::*;
use crate::models::HASSApiBody;

verus! {

/// Where a controller session stands.
#[derive(Clone, Copy, Debug, PartialEq, Eq, Structural)]
pub enum SessionPhase {
    /// The auth message is out; no command may be sent yet.
    AwaitingAuth,
    /// The controller accepted the token; commands may be sent.
    Ready,
    /// The controller refused the token.
    Failed,
    /// The session was closed.
    Closed,
}

/// What an incoming message from the controller is, by its `type` member.
#[derive(Clone, Copy, Debug, PartialEq, Eq, Structural)]
pub enum Incoming {
    AuthOk,
    AuthInvalid,
    CommandResult,
    Other,
}

/// The first message of a session: `{"type": "auth", "access_token": ...}`.
pub struct AuthMessage {
    pub msg_type: String,
    pub access_token: String,
}

/// A `call_service` message that turns a light on with a color.
pub struct LightCommand {
    pub id: u64,
    pub msg_type: String,
    pub domain: String,
    pub service: String,
    pub service_data: HASSApiBody,
}

/// The `type` member of a JSON object as text, if the text is a JSON object
/// whose `type` member is a string.
pub uninterp spec fn json_type_field(text: Seq<char>) -> Option<Seq<char>>;

/// Relies on serde_json::from_str to parse the text as a `serde_json::Value`,
/// and on `Value::get` and `Value::as_str` to read its `type` member as a
/// string.
#[verifier::external_body]
fn message_type(text: &str) -> (r: Option<String>)
    ensures
        r is Some <==> json_type_field(text@) is Some,
        r is Some ==> r->Some_0@ == json_type_field(text@)->Some_0,
{
    let value: serde_json::Value = serde_json::from_str(text).ok()?;
    value.get("type")?.as_str().map(String::from)
}

/// What a message whose `type` member is `t` stands for.
pub open spec fn spec_classify(t: Option<Seq<char>>) -> Incoming {
    match t {
        Some(s) => if s == "auth_ok"@ {
            Incoming::AuthOk
        } else if s == "auth_invalid"@ {
            Incoming::AuthInvalid
        } else if s == "result"@ {
            Incoming::CommandResult
        } else {
            Incoming::Other
        },
        None => Incoming::Other,
    }
}

/// Classifies a message by its `type` member, already read out of the text.
pub fn classify_type(message_type: Option<String>) -> (r: Incoming)
    ensures
        r == spec_classify(
            match message_type {
                Some(s) => Some(s@),
                None => None,
            },
        ),
{
    match message_type {
        Some(t) => {
            if t == String::from_str("auth_ok") {
                Incoming::AuthOk
            } else if t == String::from_str("auth_invalid") {
                Incoming::AuthInvalid
            } else if t == String::from_str("result") {
                Incoming::CommandResult
            } else {
                Incoming::Other
            }
        },
        None => Incoming::Other,
    }
}

/// Classifies a text message from the controller.
pub fn classify_message(text: &str) -> (r: Incoming)
    ensures
        r == spec_classify(json_type_field(text@)),
{
    classify_type(message_type(text))
}

/// A session's ids are issued in order: the `i`-th command carries `i + 1`,
/// and none is issued unless the controller accepted the token.
pub open spec fn session_ok(phase: SessionPhase, sent: Seq<u64>) -> bool {
    &&& forall|i: int| 0 <= i < sent.len() ==> #[trigger] sent[i] == i + 1
    &&& (phase == SessionPhase::AwaitingAuth || phase == SessionPhase::Failed) ==> sent.len() == 0
}

/// The command-issuing side of a persistent controller session. It is
/// shared by every light's dispatch, behind one lock, so the ids it hands
/// out rise by one across the whole session.
pub struct WebSocketSession {
    phase: SessionPhase,
    next_id: u64,
    sent: Ghost<Seq<u64>>,
}

impl WebSocketSession {
    /// The phase of the session.
    pub closed spec fn spec_phase(&self) -> SessionPhase {
        self.phase
    }

    /// The ids of the commands issued so far, in order.
    pub closed spec fn sent_ids(&self) -> Seq<u64> {
        self.sent@
    }

    pub closed spec fn wf(&self) -> bool {
        &&& self.next_id as int == self.sent@.len() + 1
        &&& session_ok(self.phase, self.sent@)
    }

    /// Opens a session with the auth message that must go out first.
    pub fn new(token: String) -> (r: (WebSocketSession, AuthMessage))
        ensures
            r.0.wf(),
            r.0.spec_phase() == SessionPhase::AwaitingAuth,
            r.0.sent_ids() == Seq::<u64>::empty(),
            r.1.msg_type@ == "auth"@,
            r.1.access_token@ == token@,
    {
        let session = WebSocketSession {
            phase: SessionPhase::AwaitingAuth,
            next_id: 1,
            sent: Ghost(Seq::empty()),
        };
        (session, AuthMessage { msg_type: String::from_str("auth"), access_token: token })
    }

    pub fn phase(&self) -> (r: SessionPhase)
        ensures
            r == self.spec_phase(),
    {
        self.phase
    }

    /// Takes in one message from the controller: while awaiting auth,
    /// `auth_ok` makes the session ready and `auth_invalid` fails it; any
    /// other message leaves the phase as it is.
    pub fn on_message(&mut self, incoming: Incoming) -> (r: SessionPhase)
        requires
            old(self).wf(),
        ensures
            final(self).wf(),
            final(self).sent_ids() == old(self).sent_ids(),
            r == final(self).spec_phase(),
            r == (if old(self).spec_phase() == SessionPhase::AwaitingAuth {
                match incoming {
                    Incoming::AuthOk => SessionPhase::Ready,
                    Incoming::AuthInvalid => SessionPhase::Failed,
                    _ => SessionPhase::AwaitingAuth,
                }
            } else {
                old(self).spec_phase()
            }),
    {
        if self.phase == SessionPhase::AwaitingAuth {
            match incoming {
                Incoming::AuthOk => self.phase = SessionPhase::Ready,
                Incoming::AuthInvalid => self.phase = SessionPhase::Failed,
                _ => {},
            }
        }
        self.phase
    }

    /// Wraps `body` in the next `call_service` command. There is one only
    /// once the session is ready, and while ids remain; its id is one more
    /// than the last one issued, starting at 1.
    pub fn next_command(&mut self, body: HASSApiBody) -> (r: Option<LightCommand>)
        requires
            old(self).wf(),
        ensures
            final(self).wf(),
            final(self).spec_phase() == old(self).spec_phase(),
            r is Some <==> old(self).spec_phase() == SessionPhase::Ready
                && old(self).sent_ids().len() + 1 < u64::MAX,
            r is Some ==> {
                let c = r->Some_0;
                &&& c.id == old(self).sent_ids().len() + 1
                &&& final(self).sent_ids() == old(self).sent_ids().push(c.id)
                &&& c.msg_type@ == "call_service"@
                &&& c.domain@ == "light"@
                &&& c.service@ == "turn_on"@
                &&& c.service_data == body
            },
            r is None ==> final(self).sent_ids() == old(self).sent_ids(),
    {
        if self.phase != SessionPhase::Ready || self.next_id == u64::MAX {
            return None;
        }
        let id = self.next_id;
        self.next_id = self.next_id + 1;
        self.sent = Ghost(self.sent@.push(id));
        Some(
            LightCommand {
                id,
                msg_type: String::from_str("call_service"),
                domain: String::from_str("light"),
                service: String::from_str("turn_on"),
                service_data: body,
            },
        )
    }

    /// Ends the session; no command is issued after this.
    pub fn close(&mut self)
        requires
            old(self).wf(),
        ensures
            final(self).wf(),
            final(self).spec_phase() == SessionPhase::Closed,
            final(self).sent_ids() == old(self).sent_ids(),
    {
        self.phase = SessionPhase::Closed;
    }
}

/// Over a session's whole life its command ids run 1, 2, 3, ... and rise
/// strictly, and none is issued while the session awaits auth or after the
/// controller refused the token.
pub proof fn lemma_session_ids(s: &WebSocketSession)
    requires
        s.wf(),
    ensures
        forall|i: int| 0 <= i < s.sent_ids().len() ==> #[trigger] s.sent_ids()[i] == i + 1,
        forall|i: int, j: int|
            0 <= i < j < s.sent_ids().len() ==> s.sent_ids()[i] < s.sent_ids()[j],
        s.spec_phase() == SessionPhase::AwaitingAuth ==> s.sent_ids().len() == 0,
        s.spec_phase() == SessionPhase::Failed ==> s.sent_ids().len() == 0,
{
    assert forall|i: int, j: int|
        0 <= i < j < s.sent_ids().len() implies s.sent_ids()[i] < s.sent_ids()[j] by {
        assert(s.sent_ids()[i] == i + 1);
        assert(s.sent_ids()[j] == j + 1);
    }
}

} // verus!
