//! The chat session: the presence/transcript store, the controller state
//! machine that dispatches decoded frames into it, and the render-ready
//! snapshot handed to the interface layer.

use vstd::prelude::*;
use crate::codec::{
    decode_frame, decode_payload, encode_frame, encode_register, encode_send, parse_frame,
    parse_payload, register_frame, send_frame,
};
use crate::present::{avatar_url, classify, derive_avatar, ends_with_gif, MessageKind};
use crate::wire::{MsgTypes, ProtocolDecodeError, SpecFrame};

verus! {

/// A roster entry: a username and the avatar URL derived from it.
pub struct UserProfile {
    pub name: String,
    pub avatar: String,
}

/// One transcript entry: who wrote it, and its body.
pub struct ChatMessage {
    pub from: String,
    pub body: String,
}

/// The model of a roster: `(name, avatar)` pairs in roster order.
pub open spec fn roster_entries(us: Seq<UserProfile>) -> Seq<(Seq<char>, Seq<char>)> {
    us.map_values(|u: UserProfile| (u.name@, u.avatar@))
}

/// The model of a transcript: `(from, body)` pairs in arrival order.
pub open spec fn transcript_entries(ms: Seq<ChatMessage>) -> Seq<(Seq<char>, Seq<char>)> {
    ms.map_values(|m: ChatMessage| (m.from@, m.body@))
}

/// The roster that a list of usernames is replaced by: each name paired with
/// its derived avatar URL, in the given order.
pub open spec fn derived_entries(names: Seq<Seq<char>>) -> Seq<(Seq<char>, Seq<char>)> {
    names.map_values(|n: Seq<char>| (n, avatar_url(n)))
}

/// The roster a `Users` frame carries: its `dataArray`, or empty when the
/// frame has none.
pub open spec fn users_of_frame(f: SpecFrame) -> Seq<Seq<char>> {
    match f.data_array {
        Option::Some(l) => l,
        Option::None => Seq::empty(),
    }
}

/// A local event handed to the controller: an inbound text frame, or the
/// submission of the input field's text.
pub enum Msg {
    HandleMsg(String),
    SubmitMessage(String),
}

/// What one controller step decided: whether to re-render, the frame to send
/// out, and the decode error to report, if any.
pub struct Step {
    pub render: bool,
    pub outbound: Option<String>,
    pub error: Option<ProtocolDecodeError>,
}

/// The dispatch result a `Step` stands for.
pub open spec fn step_result(r: Step) -> Result<bool, ProtocolDecodeError> {
    match r.error {
        Option::Some(e) => Result::Err(e),
        Option::None => Result::Ok(r.render),
    }
}

/// How dispatching one inbound frame relates the store before and after: a
/// `Users` frame replaces the roster and keeps the transcript, a `Message`
/// frame with a well-formed payload appends to the transcript and keeps the
/// roster, an inbound `Register` is ignored by design, and any decode
/// failure leaves the store untouched and reports the error.
pub open spec fn dispatch_spec(
    roster0: Seq<(Seq<char>, Seq<char>)>,
    transcript0: Seq<(Seq<char>, Seq<char>)>,
    frame: Seq<char>,
    roster1: Seq<(Seq<char>, Seq<char>)>,
    transcript1: Seq<(Seq<char>, Seq<char>)>,
    r: Result<bool, ProtocolDecodeError>,
) -> bool {
    match parse_frame(frame) {
        Option::None => r == Result::<bool, ProtocolDecodeError>::Err(
            ProtocolDecodeError::MalformedFrame,
        ) && roster1 == roster0 && transcript1 == transcript0,
        Option::Some(f) => match f.message_type {
            MsgTypes::Users => r == Result::<bool, ProtocolDecodeError>::Ok(true) && roster1
                == derived_entries(users_of_frame(f)) && transcript1 == transcript0,
            MsgTypes::Register => r == Result::<bool, ProtocolDecodeError>::Ok(false) && roster1
                == roster0 && transcript1 == transcript0,
            MsgTypes::Message => match f.data {
                Option::Some(d) => match parse_payload(d) {
                    Option::Some(p) => r == Result::<bool, ProtocolDecodeError>::Ok(true)
                        && roster1 == roster0 && transcript1 == transcript0.push(
                        (p.from, p.message),
                    ),
                    Option::None => r == Result::<bool, ProtocolDecodeError>::Err(
                        ProtocolDecodeError::MalformedPayload,
                    ) && roster1 == roster0 && transcript1 == transcript0,
                },
                Option::None => r == Result::<bool, ProtocolDecodeError>::Err(
                    ProtocolDecodeError::MalformedPayload,
                ) && roster1 == roster0 && transcript1 == transcript0,
            },
        },
    }
}

/// The two observable states of a session: `Connecting` until the initial
/// `register` command has been handed to the transport, `Active` from then
/// on, whether or not that send succeeded.
#[derive(Clone, Copy, PartialEq, Eq, Structural, Debug)]
pub enum SessionState {
    Connecting,
    Active,
}

/// The chat session: the local username, the session state, the roster, and
/// the transcript. The session exclusively owns both collections; the
/// interface layer only reads the snapshots `current_view` hands out.
pub struct Chat {
    username: String,
    state: SessionState,
    users: Vec<UserProfile>,
    messages: Vec<ChatMessage>,
}

impl Chat {
    /// The session identity, read once at creation.
    pub closed spec fn spec_username(self) -> Seq<char> {
        self.username@
    }

    /// The observable session state.
    pub closed spec fn spec_state(self) -> SessionState {
        self.state
    }

    /// The roster model.
    pub closed spec fn roster(self) -> Seq<(Seq<char>, Seq<char>)> {
        roster_entries(self.users@)
    }

    /// The transcript model.
    pub closed spec fn transcript(self) -> Seq<(Seq<char>, Seq<char>)> {
        transcript_entries(self.messages@)
    }

    /// Starts a session for the given username: the store is empty, and the
    /// returned text is the `register` command to send over the channel.
    pub fn create(username: String) -> (r: (Chat, String))
        ensures
            r.0.spec_username() == username@,
            r.0.spec_state() == SessionState::Connecting,
            r.0.roster() == Seq::<(Seq<char>, Seq<char>)>::empty(),
            r.0.transcript() == Seq::<(Seq<char>, Seq<char>)>::empty(),
            r.1@ == encode_frame(register_frame(username@)),
    {
        let frame = encode_register(username.as_str());
        let chat = Chat {
            username,
            state: SessionState::Connecting,
            users: Vec::new(),
            messages: Vec::new(),
        };
        proof {
            assert(chat.roster() =~= Seq::<(Seq<char>, Seq<char>)>::empty());
            assert(chat.transcript() =~= Seq::<(Seq<char>, Seq<char>)>::empty());
        }
        (chat, frame)
    }

    /// The local username.
    pub fn username(&self) -> (r: &String)
        ensures
            r@ == self.spec_username(),
    {
        &self.username
    }

    /// The observable session state.
    pub fn session_state(&self) -> (r: SessionState)
        ensures
            r == self.spec_state(),
    {
        self.state
    }

    /// Records that the initial `register` command was handed to the
    /// transport: the session becomes `Active` whether or not the send
    /// succeeded (a failure is reported by the caller, never fatal).
    pub fn register_dispatched(&mut self)
        ensures
            final(self).spec_state() == SessionState::Active,
            final(self).spec_username() == old(self).spec_username(),
            final(self).roster() == old(self).roster(),
            final(self).transcript() == old(self).transcript(),
    {
        self.state = SessionState::Active;
    }

    /// Discards the roster and installs one profile per given username, in
    /// order, each with its derived avatar. The transcript is untouched.
    pub fn replace_roster(&mut self, usernames: &Vec<String>)
        ensures
            final(self).roster() == derived_entries(usernames.deep_view()),
            final(self).transcript() == old(self).transcript(),
            final(self).spec_username() == old(self).spec_username(),
            final(self).spec_state() == old(self).spec_state(),
    {
        let mut users: Vec<UserProfile> = Vec::new();
        let mut i: usize = 0;
        while i < usernames.len()
            invariant
                i <= usernames@.len(),
                users@.len() == i,
                roster_entries(users@) == derived_entries(usernames.deep_view().take(i as int)),
            decreases usernames@.len() - i,
        {
            let name = usernames[i].clone();
            let avatar = derive_avatar(usernames[i].as_str());
            let ghost prev = users@;
            users.push(UserProfile { name, avatar });
            i = i + 1;
            proof {
                let dv = usernames.deep_view();
                assert forall|k: int| 0 <= k < i implies roster_entries(users@)[k]
                    == derived_entries(dv.take(i as int))[k] by {
                    assert(roster_entries(users@)[k] == (users@[k].name@, users@[k].avatar@));
                    assert(derived_entries(dv.take(i as int))[k] == (
                        dv.take(i as int)[k],
                        avatar_url(dv.take(i as int)[k]),
                    ));
                    assert(dv.take(i as int)[k] == dv[k]);
                    if k < i - 1 {
                        assert(users@[k] == prev[k]);
                        assert(roster_entries(prev)[k] == (prev[k].name@, prev[k].avatar@));
                        assert(roster_entries(prev)[k] == derived_entries(
                            dv.take(i as int - 1),
                        )[k]);
                        assert(derived_entries(dv.take(i as int - 1))[k] == (
                            dv.take(i as int - 1)[k],
                            avatar_url(dv.take(i as int - 1)[k]),
                        ));
                    } else {
                        assert(users@[k].name@ == dv[k]);
                        assert(users@[k].avatar@ == avatar_url(dv[k]));
                    }
                }
                assert(roster_entries(users@) =~= derived_entries(dv.take(i as int)));
            }
        }
        self.users = users;
        proof {
            assert(usernames.deep_view().take(usernames@.len() as int) =~= usernames.deep_view());
        }
    }

    /// Appends one transcript entry. Nothing else changes; the author is not
    /// required to stand in the roster.
    pub fn append_message(&mut self, from: String, body: String)
        ensures
            final(self).transcript() == old(self).transcript().push((from@, body@)),
            final(self).roster() == old(self).roster(),
            final(self).spec_username() == old(self).spec_username(),
            final(self).spec_state() == old(self).spec_state(),
    {
        let ghost from0 = from@;
        let ghost body0 = body@;
        self.messages.push(ChatMessage { from, body });
        proof {
            assert(final(self).transcript() =~= old(self).transcript().push((from0, body0)));
        }
    }

    /// Decodes one inbound text frame and dispatches it into the store. The
    /// result says whether the view changed; a frame that does not decode is
    /// dropped, reported, and leaves the store exactly as it was.
    pub fn handle_frame(&mut self, frame: &str) -> (r: Result<bool, ProtocolDecodeError>)
        ensures
            final(self).spec_username() == old(self).spec_username(),
            final(self).spec_state() == old(self).spec_state(),
            dispatch_spec(
                old(self).roster(),
                old(self).transcript(),
                frame@,
                final(self).roster(),
                final(self).transcript(),
                r,
            ),
    {
        match decode_frame(frame) {
            Result::Err(e) => Result::Err(e),
            Result::Ok(m) => match m.message_type {
                MsgTypes::Users => {
                    let list: Vec<String> = match m.data_array {
                        Option::Some(l) => l,
                        Option::None => Vec::new(),
                    };
                    proof {
                        let f = parse_frame(frame@)->0;
                        if f.data_array is None {
                            assert(list.deep_view() =~= users_of_frame(f));
                        }
                    }
                    self.replace_roster(&list);
                    Result::Ok(true)
                },
                MsgTypes::Register => Result::Ok(false),
                MsgTypes::Message => match m.data {
                    Option::Some(d) => match decode_payload(d.as_str()) {
                        Result::Ok(pd) => {
                            self.append_message(pd.from, pd.message);
                            Result::Ok(true)
                        },
                        Result::Err(e) => Result::Err(e),
                    },
                    Option::None => Result::Err(ProtocolDecodeError::MalformedPayload),
                },
            },
        }
    }

    /// The outbound `message` command for a submitted input, or nothing when
    /// the input is empty: an empty submission sends no frame.
    pub fn submit_message(&self, input: &str) -> (r: Option<String>)
        ensures
            match r {
                Option::Some(s) => input@.len() > 0 && s@ == encode_frame(send_frame(input@)),
                Option::None => input@.len() == 0,
            },
    {
        if input.is_empty() {
            Option::None
        } else {
            Option::Some(encode_send(input))
        }
    }

    /// Runs one controller step: an inbound frame is decoded and dispatched
    /// (never answered), a submission is encoded and sent (never stored).
    pub fn update(&mut self, msg: Msg) -> (r: Step)
        ensures
            final(self).spec_username() == old(self).spec_username(),
            final(self).spec_state() == old(self).spec_state(),
            match msg {
                Msg::HandleMsg(s) => r.outbound is None && dispatch_spec(
                    old(self).roster(),
                    old(self).transcript(),
                    s@,
                    final(self).roster(),
                    final(self).transcript(),
                    step_result(r),
                ),
                Msg::SubmitMessage(input) => final(self).roster() == old(self).roster()
                    && final(self).transcript() == old(self).transcript() && r.render == false
                    && r.error is None && (match r.outbound {
                    Option::Some(s) => input@.len() > 0 && s@ == encode_frame(send_frame(input@)),
                    Option::None => input@.len() == 0,
                }),
            },
    {
        match msg {
            Msg::HandleMsg(s) => match self.handle_frame(s.as_str()) {
                Result::Ok(render) => Step { render, outbound: Option::None, error: Option::None },
                Result::Err(e) => Step {
                    render: false,
                    outbound: Option::None,
                    error: Option::Some(e),
                },
            },
            Msg::SubmitMessage(input) => {
                let outbound = self.submit_message(input.as_str());
                Step { render: false, outbound, error: Option::None }
            },
        }
    }
}

// ---------------------------------------------------------------------------
// The render-ready snapshot.
// ---------------------------------------------------------------------------

/// A transcript entry as the interface renders it: author, body, the
/// author's avatar (or the placeholder when the author left the roster), and
/// the body's classification.
pub struct RenderableMessage {
    pub from: String,
    pub body: String,
    pub avatar: String,
    pub kind: MessageKind,
}

/// The model of a renderable message.
pub struct SpecRenderable {
    pub from: Seq<char>,
    pub body: Seq<char>,
    pub avatar: Seq<char>,
    pub kind: MessageKind,
}

impl View for RenderableMessage {
    type V = SpecRenderable;

    open spec fn view(&self) -> SpecRenderable {
        SpecRenderable { from: self.from@, body: self.body@, avatar: self.avatar@, kind: self.kind }
    }
}

/// An immutable snapshot of the store, ready to render.
pub struct ChatView {
    pub users: Vec<UserProfile>,
    pub messages: Vec<RenderableMessage>,
}

/// The model of a snapshot.
pub struct SpecView {
    pub users: Seq<(Seq<char>, Seq<char>)>,
    pub messages: Seq<SpecRenderable>,
}

impl View for ChatView {
    type V = SpecView;

    open spec fn view(&self) -> SpecView {
        SpecView {
            users: roster_entries(self.users@),
            messages: self.messages@.map_values(|m: RenderableMessage| m@),
        }
    }
}

/// The avatar shown for an author missing from the roster.
pub open spec fn placeholder_avatar() -> Seq<char> {
    avatar_url("unknown"@)
}

/// The avatar of the first roster entry with the given name, or the
/// placeholder when there is none.
pub open spec fn lookup_avatar(entries: Seq<(Seq<char>, Seq<char>)>, from: Seq<char>) -> Seq<char>
    decreases entries.len(),
{
    if entries.len() == 0 {
        placeholder_avatar()
    } else if entries[0].0 == from {
        entries[0].1
    } else {
        lookup_avatar(entries.drop_first(), from)
    }
}

/// The snapshot a roster and transcript present: the roster as it stands,
/// and each transcript entry resolved to its author's avatar and classified
/// as text or attachment.
pub open spec fn view_spec(
    roster: Seq<(Seq<char>, Seq<char>)>,
    transcript: Seq<(Seq<char>, Seq<char>)>,
) -> SpecView {
    SpecView {
        users: roster,
        messages: transcript.map_values(
            |m: (Seq<char>, Seq<char>)|
                SpecRenderable {
                    from: m.0,
                    body: m.1,
                    avatar: lookup_avatar(roster, m.0),
                    kind: if ends_with_gif(m.1) {
                        MessageKind::Attachment
                    } else {
                        MessageKind::Text
                    },
                },
        ),
    }
}

fn lookup_avatar_exec(users: &Vec<UserProfile>, from: &String) -> (r: String)
    ensures
        r@ == lookup_avatar(roster_entries(users@), from@),
{
    let ghost all = roster_entries(users@);
    proof {
        assert(all.subrange(0, all.len() as int) =~= all);
    }
    let mut i: usize = 0;
    while i < users.len()
        invariant
            i <= users@.len(),
            all == roster_entries(users@),
            lookup_avatar(all.subrange(i as int, all.len() as int), from@) == lookup_avatar(
                all,
                from@,
            ),
        decreases users@.len() - i,
    {
        proof {
            assert(all.subrange(i as int, all.len() as int)[0] == all[i as int]);
        }
        if users[i].name.eq(from) {
            return users[i].avatar.clone();
        }
        i = i + 1;
        proof {
            assert(all.subrange(i as int - 1, all.len() as int).drop_first() =~= all.subrange(
                i as int,
                all.len() as int,
            ));
        }
    }
    proof {
        assert(all.subrange(all.len() as int, all.len() as int) =~= Seq::<
            (Seq<char>, Seq<char>),
        >::empty());
    }
    derive_avatar("unknown")
}

impl Chat {
    /// The immutable snapshot of the store as it stands now. The snapshot is
    /// a function of the store alone: reading it changes nothing.
    pub fn current_view(&self) -> (v: ChatView)
        ensures
            v@ == view_spec(self.roster(), self.transcript()),
    {
        let mut users: Vec<UserProfile> = Vec::new();
        let mut i: usize = 0;
        while i < self.users.len()
            invariant
                i <= self.users@.len(),
                users@.len() == i,
                roster_entries(users@) == roster_entries(self.users@).take(i as int),
            decreases self.users@.len() - i,
        {
            let ghost prev = users@;
            users.push(
                UserProfile {
                    name: self.users[i].name.clone(),
                    avatar: self.users[i].avatar.clone(),
                },
            );
            i = i + 1;
            proof {
                assert forall|k: int| 0 <= k < i implies roster_entries(users@)[k]
                    == roster_entries(self.users@).take(i as int)[k] by {
                    assert(roster_entries(users@)[k] == (users@[k].name@, users@[k].avatar@));
                    assert(roster_entries(self.users@).take(i as int)[k] == (
                        self.users@[k].name@,
                        self.users@[k].avatar@,
                    ));
                    if k < i - 1 {
                        assert(users@[k] == prev[k]);
                        assert(roster_entries(prev)[k] == (prev[k].name@, prev[k].avatar@));
                        assert(roster_entries(prev)[k] == roster_entries(self.users@).take(
                            i as int - 1,
                        )[k]);
                        assert(roster_entries(self.users@).take(i as int - 1)[k] == (
                            self.users@[k].name@,
                            self.users@[k].avatar@,
                        ));
                    } else {
                        assert(users@[k].name@ == self.users@[k].name@);
                        assert(users@[k].avatar@ == self.users@[k].avatar@);
                    }
                }
                assert(roster_entries(users@) =~= roster_entries(self.users@).take(i as int));
            }
        }
        proof {
            assert(roster_entries(self.users@).take(self.users@.len() as int) =~= roster_entries(
                self.users@,
            ));
        }
        let ghost target = view_spec(self.roster(), self.transcript());
        let mut messages: Vec<RenderableMessage> = Vec::new();
        let mut j: usize = 0;
        while j < self.messages.len()
            invariant
                j <= self.messages@.len(),
                target == view_spec(self.roster(), self.transcript()),
                roster_entries(self.users@) == self.roster(),
                transcript_entries(self.messages@) == self.transcript(),
                messages@.len() == j,
                forall|k: int| 0 <= k < j ==> messages@[k]@ == target.messages[k],
            decreases self.messages@.len() - j,
        {
            let m = &self.messages[j];
            let avatar = lookup_avatar_exec(&self.users, &m.from);
            let kind = classify(m.body.as_str());
            messages.push(
                RenderableMessage { from: m.from.clone(), body: m.body.clone(), avatar, kind },
            );
            j = j + 1;
            proof {
                assert(self.transcript()[j - 1] == (self.messages@[j - 1].from@, self.messages@[j
                    - 1].body@));
            }
        }
        let v = ChatView { users, messages };
        proof {
            assert(v@.messages =~= target.messages);
        }
        v
    }
}

// ---------------------------------------------------------------------------
// Laws of the store.
// ---------------------------------------------------------------------------

/// Law: replacing the roster with a list of usernames keeps exactly those
/// names, in order, and gives each the avatar URL derived from its name.
pub proof fn lemma_roster_replacement(names: Seq<Seq<char>>, roster: Seq<(Seq<char>, Seq<char>)>)
    requires
        roster == derived_entries(names),
    ensures
        roster.map_values(|e: (Seq<char>, Seq<char>)| e.0) == names,
        forall|i: int| 0 <= i < roster.len() ==> #[trigger] roster[i].1 == avatar_url(names[i]),
{
    assert(roster.map_values(|e: (Seq<char>, Seq<char>)| e.0) =~= names);
}

/// Law: the snapshot is a function of the store alone, so reading it twice
/// without a mutation in between gives equal snapshots.
pub proof fn lemma_view_idempotent(c: Chat, v1: ChatView, v2: ChatView)
    requires
        v1@ == view_spec(c.roster(), c.transcript()),
        v2@ == view_spec(c.roster(), c.transcript()),
    ensures
        v1@ == v2@,
{
}

} // verus!

