//! Commands to base stations, and which answer belongs to which command.
use crate::protocol;
use crate::table::Table;
use vstd::prelude::*;

verus! {

/// A command to a base station.
#[derive(Debug)]
pub enum ControlCommand {
    SendSds {
        handle: u32,
        source_ssi: u32,
        dest_ssi: u32,
        dest_is_group: bool,
        len_bits: u16,
        payload: Vec<u8>,
    },
    SendRawSdsType4 {
        handle: u32,
        source_ssi: u32,
        dest_ssi: u32,
        dest_is_group: bool,
        len_bits: u16,
        payload: Vec<u8>,
    },
    KickMs { issi: u32 },
    Dgna { issi: u32, gssi: u32, mnemonic: Option<String>, attachment_mode: u8, attach: bool },
    RestartService,
    ShutdownService,
    AddLiveSds { text: String, protocol_id: u8, source_issi: u32, repeat_count: u32 },
    DeleteLiveSds { id: u32 },
    ClearLiveSds,
    ClearEmergency { issi: u32 },
    CommandA { handle: u32, parameter: u32 },
    TestCmdB { handle: u32, source_ssi: u32, is_group: bool, payload: Vec<u8> },
}

#[verifier::ext_equal]
pub enum CommandModel {
    SendSds(u32, u32, u32, bool, u16, Seq<u8>),
    SendRawSdsType4(u32, u32, u32, bool, u16, Seq<u8>),
    KickMs(u32),
    Dgna(u32, u32, Option<Seq<char>>, u8, bool),
    RestartService,
    ShutdownService,
    AddLiveSds(Seq<char>, u8, u32, u32),
    DeleteLiveSds(u32),
    ClearLiveSds,
    ClearEmergency(u32),
    CommandA(u32, u32),
    TestCmdB(u32, u32, bool, Seq<u8>),
}

impl View for ControlCommand {
    type V = CommandModel;

    open spec fn view(&self) -> CommandModel {
        match self {
            ControlCommand::SendSds {
                handle,
                source_ssi,
                dest_ssi,
                dest_is_group,
                len_bits,
                payload,
            } => CommandModel::SendSds(
                *handle,
                *source_ssi,
                *dest_ssi,
                *dest_is_group,
                *len_bits,
                payload@,
            ),
            ControlCommand::SendRawSdsType4 {
                handle,
                source_ssi,
                dest_ssi,
                dest_is_group,
                len_bits,
                payload,
            } => CommandModel::SendRawSdsType4(
                *handle,
                *source_ssi,
                *dest_ssi,
                *dest_is_group,
                *len_bits,
                payload@,
            ),
            ControlCommand::KickMs { issi } => CommandModel::KickMs(*issi),
            ControlCommand::Dgna { issi, gssi, mnemonic, attachment_mode, attach } => {
                CommandModel::Dgna(
                    *issi,
                    *gssi,
                    protocol::opt_text(*mnemonic),
                    *attachment_mode,
                    *attach,
                )
            },
            ControlCommand::RestartService => CommandModel::RestartService,
            ControlCommand::ShutdownService => CommandModel::ShutdownService,
            ControlCommand::AddLiveSds { text, protocol_id, source_issi, repeat_count } => {
                CommandModel::AddLiveSds(text@, *protocol_id, *source_issi, *repeat_count)
            },
            ControlCommand::DeleteLiveSds { id } => CommandModel::DeleteLiveSds(*id),
            ControlCommand::ClearLiveSds => CommandModel::ClearLiveSds,
            ControlCommand::ClearEmergency { issi } => CommandModel::ClearEmergency(*issi),
            ControlCommand::CommandA { handle, parameter } => CommandModel::CommandA(
                *handle,
                *parameter,
            ),
            ControlCommand::TestCmdB { handle, source_ssi, is_group, payload } => {
                CommandModel::TestCmdB(*handle, *source_ssi, *is_group, payload@)
            },
        }
    }
}

impl CommandModel {
    /// The handle of a command that has one.
    pub open spec fn handle(self) -> Option<u32> {
        match self {
            CommandModel::SendSds(h, _, _, _, _, _) => Some(h),
            CommandModel::SendRawSdsType4(h, _, _, _, _, _) => Some(h),
            CommandModel::CommandA(h, _) => Some(h),
            CommandModel::TestCmdB(h, _, _, _) => Some(h),
            _ => None,
        }
    }

    /// The command under another handle; a command without one stays as it is.
    pub open spec fn under(self, handle: u32) -> CommandModel {
        match self {
            CommandModel::SendSds(_, a, b, c, d, e) => CommandModel::SendSds(
                handle,
                a,
                b,
                c,
                d,
                e,
            ),
            CommandModel::SendRawSdsType4(_, a, b, c, d, e) => CommandModel::SendRawSdsType4(
                handle,
                a,
                b,
                c,
                d,
                e,
            ),
            CommandModel::CommandA(_, a) => CommandModel::CommandA(handle, a),
            CommandModel::TestCmdB(_, a, b, c) => CommandModel::TestCmdB(handle, a, b, c),
            _ => self,
        }
    }

    /// What the answer to a command will name, for the commands that are answered.
    pub open spec fn awaits(self) -> Option<Topic> {
        match self {
            CommandModel::KickMs(issi) => Some(Topic::Kick(issi)),
            CommandModel::SendSds(h, _, _, _, _, _) => Some(Topic::Handle(h)),
            CommandModel::CommandA(h, _) => Some(Topic::Handle(h)),
            _ => None,
        }
    }
}

/// What an answer names.
#[derive(Debug, Clone, Copy, PartialEq, Eq, Structural)]
pub enum Topic {
    Handle(u32),
    Kick(u32),
}

/// An answer of a base station.
#[derive(Debug, Clone, Copy, PartialEq, Eq, Structural)]
pub enum ControlResponse {
    CommandAResponse { handle: u32, result: u32 },
    SendSdsResponse { handle: u32, success: bool },
    KickMsResponse { issi: u32, success: bool },
}

/// What an answer names.
pub open spec fn answered(r: ControlResponse) -> Topic {
    match r {
        ControlResponse::CommandAResponse { handle, .. } => Topic::Handle(handle),
        ControlResponse::SendSdsResponse { handle, .. } => Topic::Handle(handle),
        ControlResponse::KickMsResponse { issi, .. } => Topic::Kick(issi),
    }
}

/// Why a command was not answered.
#[derive(Debug, Clone, Copy, PartialEq, Eq, Structural)]
pub enum SendError {
    NotConnected,
    Timeout,
}

impl ControlCommand {
    /// The handle of a command that has one.
    pub fn handle(&self) -> (r: Option<u32>)
        ensures
            r == self@.handle(),
    {
        match self {
            ControlCommand::SendSds { handle, .. } => Some(*handle),
            ControlCommand::SendRawSdsType4 { handle, .. } => Some(*handle),
            ControlCommand::CommandA { handle, .. } => Some(*handle),
            ControlCommand::TestCmdB { handle, .. } => Some(*handle),
            _ => None,
        }
    }

    /// The command under another handle; a command without one stays as it is.
    pub fn with_handle(self, fresh: u32) -> (r: Self)
        ensures
            r@ == self@.under(fresh),
    {
        match self {
            ControlCommand::SendSds {
                source_ssi,
                dest_ssi,
                dest_is_group,
                len_bits,
                payload,
                ..
            } => ControlCommand::SendSds {
                handle: fresh,
                source_ssi,
                dest_ssi,
                dest_is_group,
                len_bits,
                payload,
            },
            ControlCommand::SendRawSdsType4 {
                source_ssi,
                dest_ssi,
                dest_is_group,
                len_bits,
                payload,
                ..
            } => ControlCommand::SendRawSdsType4 {
                handle: fresh,
                source_ssi,
                dest_ssi,
                dest_is_group,
                len_bits,
                payload,
            },
            ControlCommand::CommandA { parameter, .. } => ControlCommand::CommandA {
                handle: fresh,
                parameter,
            },
            ControlCommand::TestCmdB { source_ssi, is_group, payload, .. } => {
                ControlCommand::TestCmdB { handle: fresh, source_ssi, is_group, payload }
            },
            other => other,
        }
    }

    /// What the answer will name, for the commands that are answered.
    pub fn topic(&self) -> (r: Option<Topic>)
        ensures
            r == self@.awaits(),
    {
        match self {
            ControlCommand::KickMs { issi } => Some(Topic::Kick(*issi)),
            ControlCommand::SendSds { handle, .. } => Some(Topic::Handle(*handle)),
            ControlCommand::CommandA { handle, .. } => Some(Topic::Handle(*handle)),
            _ => None,
        }
    }
}

/// A connected base station: who waits for an answer to what. Whoever waits holds a
/// ticket.
#[derive(Debug)]
pub struct ControlSession {
    pub pending_handle: Table<u32, u64>,
    pub pending_kick: Table<u32, u64>,
}

#[verifier::ext_equal]
pub struct SessionModel {
    pub pending_handle: Map<u32, u64>,
    pub pending_kick: Map<u32, u64>,
}

impl View for ControlSession {
    type V = SessionModel;

    open spec fn view(&self) -> SessionModel {
        SessionModel { pending_handle: self.pending_handle@, pending_kick: self.pending_kick@ }
    }
}

impl SessionModel {
    pub open spec fn idle() -> SessionModel {
        SessionModel { pending_handle: Map::empty(), pending_kick: Map::empty() }
    }

    /// Who waits for an answer on a topic.
    pub open spec fn waiter(self, t: Topic) -> Option<u64> {
        match t {
            Topic::Handle(h) => if self.pending_handle.dom().contains(h) {
                Some(self.pending_handle[h])
            } else {
                None
            },
            Topic::Kick(i) => if self.pending_kick.dom().contains(i) {
                Some(self.pending_kick[i])
            } else {
                None
            },
        }
    }

    /// The session with one who waits on a topic, in the place of any earlier one.
    pub open spec fn waiting(self, t: Topic, ticket: u64) -> SessionModel {
        match t {
            Topic::Handle(h) => SessionModel {
                pending_handle: self.pending_handle.insert(h, ticket),
                ..self
            },
            Topic::Kick(i) => SessionModel {
                pending_kick: self.pending_kick.insert(i, ticket),
                ..self
            },
        }
    }

    /// The session with nobody waiting on a topic.
    pub open spec fn served(self, t: Topic) -> SessionModel {
        match t {
            Topic::Handle(h) => SessionModel {
                pending_handle: self.pending_handle.remove(h),
                ..self
            },
            Topic::Kick(i) => SessionModel { pending_kick: self.pending_kick.remove(i), ..self },
        }
    }
}

impl ControlSession {
    fn wait(&mut self, t: Topic, ticket: u64)
        ensures
            final(self)@ == old(self)@.waiting(t, ticket),
    {
        match t {
            Topic::Handle(h) => {
                let _ = self.pending_handle.insert(h, ticket);
            },
            Topic::Kick(i) => {
                let _ = self.pending_kick.insert(i, ticket);
            },
        }
    }

    fn serve(&mut self, t: Topic) -> (r: Option<u64>)
        ensures
            final(self)@ == old(self)@.served(t),
            r == old(self)@.waiter(t),
    {
        match t {
            Topic::Handle(h) => self.pending_handle.remove(&h),
            Topic::Kick(i) => self.pending_kick.remove(&i),
        }
    }
}

/// The base stations that take commands.
#[derive(Debug)]
pub struct ControlState {
    pub sessions: Table<String, ControlSession>,
    /// Handle of the next command.
    pub next_handle: u32,
}

#[verifier::ext_equal]
pub struct ControlModel {
    pub sessions: Map<Seq<char>, SessionModel>,
    pub next_handle: u32,
}

impl View for ControlState {
    type V = ControlModel;

    open spec fn view(&self) -> ControlModel {
        ControlModel { sessions: self.sessions@, next_handle: self.next_handle }
    }
}

/// The state after a command was made ready for a base station. A connected station
/// costs a handle whether or not the command needs it.
pub open spec fn sent_state(
    s: ControlModel,
    bts: Seq<char>,
    c: CommandModel,
    ticket: u64,
) -> ControlModel {
    if !s.sessions.dom().contains(bts) {
        s
    } else {
        let ready = c.under(s.next_handle);
        ControlModel {
            sessions: match ready.awaits() {
                Some(t) => s.sessions.insert(bts, s.sessions[bts].waiting(t, ticket)),
                None => s.sessions,
            },
            next_handle: s.next_handle.wrapping_add(1),
        }
    }
}

/// The state after an answer of a base station.
pub open spec fn answered_state(s: ControlModel, bts: Seq<char>, r: ControlResponse) -> ControlModel {
    if s.sessions.dom().contains(bts) {
        ControlModel {
            sessions: s.sessions.insert(bts, s.sessions[bts].served(answered(r))),
            ..s
        }
    } else {
        s
    }
}

/// Whose answer it is.
pub open spec fn answer_goes_to(s: ControlModel, bts: Seq<char>, r: ControlResponse) -> Option<
    u64,
> {
    if s.sessions.dom().contains(bts) {
        s.sessions[bts].waiter(answered(r))
    } else {
        None
    }
}

impl ControlState {
    pub fn new() -> (r: Self)
        ensures
            r@ == (ControlModel { sessions: Map::empty(), next_handle: 0 }),
    {
        let r = ControlState { sessions: Table::new(), next_handle: 0 };
        assert(r@ =~= ControlModel { sessions: Map::empty(), next_handle: 0 });
        r
    }

    /// The names of the connected base stations, each once.
    pub fn connected_ids(&self) -> (r: Vec<String>)
        ensures
            forall|k: Seq<char>| #[trigger]
                self@.sessions.dom().contains(k) <==> exists|i: int|
                    0 <= i < r@.len() && (#[trigger] r@[i])@ == k,
            r@.len() == self@.sessions.len(),
    {
        let n: usize = self.sessions.len();
        let ghost entries = self.sessions.entries();
        let mut out: Vec<String> = Vec::new();
        let mut i: usize = 0;
        while i < n
            invariant
                n == entries.len(),
                entries == self.sessions.entries(),
                i <= n,
                out@.len() == i,
                forall|j: int| 0 <= j < i ==> (#[trigger] out@[j])@ == entries[j].0,
            decreases n - i,
        {
            let (k, _) = self.sessions.entry(i);
            out.push(k.clone());
            i = i + 1;
        }
        proof {
            assert forall|k: Seq<char>| #[trigger]
                self@.sessions.dom().contains(k) implies exists|i: int|
                0 <= i < out@.len() && (#[trigger] out@[i])@ == k by {
                let i = choose|i: int| 0 <= i < n && (#[trigger] entries[i]).0 == k;
                assert(out@[i]@ == k);
            }
            assert forall|k: Seq<char>|
                (exists|i: int| 0 <= i < out@.len() && (#[trigger] out@[i])@ == k) implies
                #[trigger] self@.sessions.dom().contains(k) by {
                let i = choose|i: int| 0 <= i < out@.len() && (#[trigger] out@[i])@ == k;
                assert(entries[i].0 == k);
            }
        }
        out
    }

    /// A base station connects. Whoever waited for one of that name waits no more.
    pub fn connect(&mut self, bts: &str)
        ensures
            final(self)@ == (ControlModel {
                sessions: old(self)@.sessions.insert(bts@, SessionModel::idle()),
                ..old(self)@
            }),
    {
        let session = ControlSession { pending_handle: Table::new(), pending_kick: Table::new() };
        assert(session@ =~= SessionModel::idle());
        let _ = self.sessions.insert(bts.to_owned(), session);
    }

    /// A base station disconnects.
    pub fn disconnect(&mut self, bts: &str)
        ensures
            final(self)@ == (ControlModel {
                sessions: old(self)@.sessions.remove(bts@),
                ..old(self)@
            }),
    {
        let _ = self.sessions.remove(&bts.to_owned());
    }

    /// Makes a command ready for a base station: gives it a fresh handle, and notes who
    /// waits for the answer. The flag says whether there will be one.
    pub fn send_command(&mut self, bts: &str, command: ControlCommand, ticket: u64) -> (r: Result<
        (ControlCommand, bool),
        SendError,
    >)
        ensures
            final(self)@ == sent_state(old(self)@, bts@, command@, ticket),
            match r {
                Ok((ready, waits)) => {
                    &&& old(self)@.sessions.dom().contains(bts@)
                    &&& ready@ == command@.under(old(self)@.next_handle)
                    &&& waits == (ready@.awaits() is Some)
                },
                Err(e) => e == SendError::NotConnected && !old(self)@.sessions.dom().contains(bts@),
            },
    {
        let key = bts.to_owned();
        match self.sessions.remove(&key) {
            None => {
                assert(self@.sessions =~= old(self)@.sessions);
                Err(SendError::NotConnected)
            },
            Some(session) => {
                let mut session = session;
                let fresh: u32 = self.next_handle;
                self.next_handle = fresh.wrapping_add(1);
                let ready = command.with_handle(fresh);
                let topic = ready.topic();
                if let Some(t) = topic {
                    session.wait(t, ticket);
                }
                let _ = self.sessions.insert(key, session);
                assert(self@.sessions =~= sent_state(old(self)@, bts@, command@, ticket).sessions);
                Ok((ready, topic.is_some()))
            },
        }
    }

    /// Takes an answer of a base station, and says whose it is. An answer that nobody
    /// waits for is nobody's.
    pub fn handle_response(&mut self, bts: &str, response: &ControlResponse) -> (r: Option<u64>)
        ensures
            final(self)@ == answered_state(old(self)@, bts@, *response),
            r == answer_goes_to(old(self)@, bts@, *response),
    {
        let key = bts.to_owned();
        match self.sessions.remove(&key) {
            None => {
                assert(self@.sessions =~= old(self)@.sessions);
                None
            },
            Some(session) => {
                let mut session = session;
                let topic = match response {
                    ControlResponse::CommandAResponse { handle, .. } => Topic::Handle(*handle),
                    ControlResponse::SendSdsResponse { handle, .. } => Topic::Handle(*handle),
                    ControlResponse::KickMsResponse { issi, .. } => Topic::Kick(*issi),
                };
                let ticket = session.serve(topic);
                let _ = self.sessions.insert(key, session);
                assert(self@.sessions =~= answered_state(old(self)@, bts@, *response).sessions);
                ticket
            },
        }
    }
}

/// The status and the text that a request to send a command fails with.
pub fn failure_text(e: SendError) -> (r: (u16, &'static str))
    ensures
        match e {
            SendError::NotConnected => r.0 == 404 && r.1@ == "control BTS not connected"@,
            SendError::Timeout => r.0 == 504 && r.1@ == "no response from BTS"@,
        },
{
    match e {
        SendError::NotConnected => (404, "control BTS not connected"),
        SendError::Timeout => (504, "no response from BTS"),
    }
}

/// An answer to a command reaches the one who sent it, and reaches them once; what
/// others wait for on the same station is left alone.
pub proof fn answers_find_their_command(
    s: ControlModel,
    bts: Seq<char>,
    c: CommandModel,
    ticket: u64,
    r: ControlResponse,
    other: ControlResponse,
)
    requires
        s.sessions.dom().contains(bts),
        c.under(s.next_handle).awaits() == Some(answered(r)),
        answered(other) != answered(r),
    ensures
        ({
            let sent = sent_state(s, bts, c, ticket);
            let done = answered_state(sent, bts, r);
            &&& answer_goes_to(sent, bts, r) == Some(ticket)
            &&& answer_goes_to(done, bts, r) is None
            &&& answer_goes_to(sent, bts, other) == answer_goes_to(s, bts, other)
            &&& answer_goes_to(done, bts, other) == answer_goes_to(s, bts, other)
        }),
{
}

/// Two commands in a row get different handles.
pub proof fn handles_are_fresh(s: ControlModel, bts: Seq<char>, c: CommandModel, ticket: u64)
    requires
        s.sessions.dom().contains(bts),
    ensures
        sent_state(s, bts, c, ticket).next_handle != s.next_handle,
        c.handle() is Some ==> c.under(s.next_handle).handle() == Some(s.next_handle),
        c.handle() is None ==> c.under(s.next_handle) == c,
{
}

/// After a station has gone, nobody's answer comes from it, and no command goes to it.
pub proof fn gone_stations_are_silent(
    s: ControlModel,
    bts: Seq<char>,
    c: CommandModel,
    ticket: u64,
    r: ControlResponse,
)
    ensures
        ({
            let gone = ControlModel { sessions: s.sessions.remove(bts), ..s };
            &&& sent_state(gone, bts, c, ticket) == gone
            &&& answer_goes_to(gone, bts, r) is None
        }),
{
}

/// Asking a station to drop a subscriber is answered under that subscriber: the answer
/// goes to the one who asked, once. No other station, and nobody who waits for anything
/// else, is touched.
pub proof fn kicks_are_answered_by_subscriber(
    s: ControlModel,
    bts: Seq<char>,
    issi: u32,
    success: bool,
    ticket: u64,
)
    requires
        s.sessions.dom().contains(bts),
    ensures
        ({
            let sent = sent_state(s, bts, CommandModel::KickMs(issi), ticket);
            let r = ControlResponse::KickMsResponse { issi, success };
            let done = answered_state(sent, bts, r);
            &&& sent.sessions.dom() == s.sessions.dom()
            &&& sent.sessions[bts].pending_kick == s.sessions[bts].pending_kick.insert(issi, ticket)
            &&& sent.sessions[bts].pending_handle == s.sessions[bts].pending_handle
            &&& forall|b: Seq<char>|
                b != bts && #[trigger] s.sessions.dom().contains(b) ==> sent.sessions[b]
                    == s.sessions[b]
            &&& answer_goes_to(sent, bts, r) == Some(ticket)
            &&& done.sessions[bts].pending_kick == s.sessions[bts].pending_kick.remove(issi)
            &&& answer_goes_to(done, bts, r) is None
        }),
{
    let sent = sent_state(s, bts, CommandModel::KickMs(issi), ticket);
    let done = answered_state(sent, bts, ControlResponse::KickMsResponse { issi, success });
    assert(sent.sessions.dom() =~= s.sessions.dom());
    assert(done.sessions[bts].pending_kick =~= s.sessions[bts].pending_kick.remove(issi));
}

/// A message that a station is asked to send goes out under the next handle, as it is
/// otherwise, and is answered under that handle: the answer goes to the one who asked,
/// once. Handles count on, from the last one to the first.
pub proof fn messages_are_answered_by_handle(
    s: ControlModel,
    bts: Seq<char>,
    h: u32,
    source: u32,
    dest: u32,
    group: bool,
    bits: u16,
    payload: Seq<u8>,
    success: bool,
    ticket: u64,
)
    requires
        s.sessions.dom().contains(bts),
    ensures
        ({
            let c = CommandModel::SendSds(h, source, dest, group, bits, payload);
            let sent = sent_state(s, bts, c, ticket);
            let r = ControlResponse::SendSdsResponse { handle: s.next_handle, success };
            let done = answered_state(sent, bts, r);
            &&& c.under(s.next_handle) == CommandModel::SendSds(
                s.next_handle,
                source,
                dest,
                group,
                bits,
                payload,
            )
            &&& sent.sessions[bts].pending_handle == s.sessions[bts].pending_handle.insert(
                s.next_handle,
                ticket,
            )
            &&& sent.sessions[bts].pending_kick == s.sessions[bts].pending_kick
            &&& sent.next_handle == (s.next_handle + 1) % 0x1_0000_0000
            &&& answer_goes_to(sent, bts, r) == Some(ticket)
            &&& done.sessions[bts].pending_handle == s.sessions[bts].pending_handle.remove(
                s.next_handle,
            )
            &&& answer_goes_to(done, bts, r) is None
        }),
{
    let c = CommandModel::SendSds(h, source, dest, group, bits, payload);
    let sent = sent_state(s, bts, c, ticket);
    let r = ControlResponse::SendSdsResponse { handle: s.next_handle, success };
    let done = answered_state(sent, bts, r);
    assert(done.sessions[bts].pending_handle =~= s.sessions[bts].pending_handle.remove(
        s.next_handle,
    ));
}

/// Commands that no station answers are waited for by nobody.
pub proof fn other_commands_are_not_waited_for(
    s: ControlModel,
    bts: Seq<char>,
    c: CommandModel,
    ticket: u64,
)
    requires
        !(c is KickMs),
        !(c is SendSds),
        !(c is CommandA),
    ensures
        sent_state(s, bts, c, ticket).sessions == s.sessions,
        s.sessions.dom().contains(bts) ==> sent_state(s, bts, c, ticket).next_handle == (
        s.next_handle + 1) % 0x1_0000_0000,
{
}

} // verus!
