use tokio::sync::broadcast::{Receiver, Sender};
use vstd::prelude::*;

verus! {

/// tokio's broadcast sender, opaque.
#[verifier::external_type_specification]
#[verifier::external_body]
#[verifier::reject_recursive_types(T)]
pub struct ExSender<T>(Sender<T>);

/// tokio's broadcast receiver, opaque.
#[verifier::external_type_specification]
#[verifier::external_body]
#[verifier::reject_recursive_types(T)]
pub struct ExReceiver<T>(Receiver<T>);

/// Relies on `tokio::sync::broadcast::channel`, which panics on a capacity of 0 or above
/// `usize::MAX / 2`: the sending half of a new channel.
#[verifier::external_body]
fn state_channel(capacity: usize) -> (r: Sender<ServerState>)
    requires
        0 < capacity <= usize::MAX / 2,
{
    tokio::sync::broadcast::channel(capacity).0
}

/// Relies on `broadcast::Sender::send`: the state goes to every receiver subscribed at this
/// moment; with none, nothing happens.
#[verifier::external_body]
fn announce(sender: &Sender<ServerState>, state: ServerState) {
    let _ = sender.send(state);
}

/// Relies on `broadcast::Sender::subscribe`: a receiver of the values sent from now on.
#[verifier::external_body]
fn receiver_of(sender: &Sender<ServerState>) -> (r: Receiver<ServerState>) {
    sender.subscribe()
}

#[derive(Clone, Copy, Debug, PartialEq, Eq, Structural)]
pub enum ServerState {
    Booting,
    Ready,
    Run,
    Closing,
    Shutdown,
}

/// Place of a state in the order `Booting, Ready, Run, Closing, Shutdown`.
pub open spec fn rank(s: ServerState) -> int {
    match s {
        ServerState::Booting => 0,
        ServerState::Ready => 1,
        ServerState::Run => 2,
        ServerState::Closing => 3,
        ServerState::Shutdown => 4,
    }
}

/// The legal transitions.
pub open spec fn can_transition(from: ServerState, to: ServerState) -> bool {
    match (from, to) {
        (ServerState::Booting, ServerState::Ready) => true,
        (ServerState::Ready, ServerState::Run) => true,
        (ServerState::Run, ServerState::Closing) => true,
        (ServerState::Closing, ServerState::Shutdown) => true,
        _ => false,
    }
}

/// The server-wide state, with a channel that announces each change to its subscribers.
pub struct LifecycleManager {
    state: ServerState,
    state_sender: Sender<ServerState>,
    announced: Ghost<Seq<ServerState>>,
}

impl View for LifecycleManager {
    type V = ServerState;

    closed spec fn view(&self) -> ServerState {
        self.state
    }
}

/// Whether moving from `from` to `to` is allowed.
pub fn transition_allowed(from: ServerState, to: ServerState) -> (r: bool)
    ensures
        r == can_transition(from, to),
{
    match (from, to) {
        (ServerState::Booting, ServerState::Ready) => true,
        (ServerState::Ready, ServerState::Run) => true,
        (ServerState::Run, ServerState::Closing) => true,
        (ServerState::Closing, ServerState::Shutdown) => true,
        _ => false,
    }
}

/// Whether a server in `state` takes new connections: only while it runs.
pub fn accepts_connections(state: ServerState) -> (r: bool)
    ensures
        r == (state == ServerState::Run),
{
    match state {
        ServerState::Run => true,
        _ => false,
    }
}

impl LifecycleManager {
    /// Every state handed to the channel so far, in order.
    pub closed spec fn announced(&self) -> Seq<ServerState> {
        self.announced@
    }

    /// Hands `state` to the channel once and records it.
    fn broadcast(&mut self, state: ServerState)
        ensures
            final(self)@ == old(self)@,
            final(self).announced() == old(self).announced().push(state),
    {
        announce(&self.state_sender, state);
        self.announced = Ghost(self.announced@.push(state));
    }

    /// A manager in state `Booting`, which it announces.
    pub fn new() -> (r: Self)
        ensures
            r@ == ServerState::Booting,
            r.announced() == seq![ServerState::Booting],
    {
        let state_sender = state_channel(16);
        let mut manager = LifecycleManager {
            state: ServerState::Booting,
            state_sender,
            announced: Ghost(Seq::empty()),
        };
        manager.broadcast(ServerState::Booting);
        assert(manager.announced() =~= seq![ServerState::Booting]);
        manager
    }

    /// Moves to `state` if that is a legal transition and announces it once; otherwise
    /// fails, keeps the current state and announces nothing.
    pub fn transition_to(&mut self, state: ServerState) -> (r: Result<(), &'static str>)
        ensures
            can_transition(old(self)@, state) ==> r is Ok && final(self)@ == state
                && final(self).announced() == old(self).announced().push(state),
            !can_transition(old(self)@, state) ==> (r matches Err(m) && m@
                == "Transition invalid"@) && final(self)@ == old(self)@
                && final(self).announced() == old(self).announced(),
    {
        if !transition_allowed(self.state, state) {
            return Err("Transition invalid");
        }
        self.state = state;
        self.broadcast(state);
        Ok(())
    }

    /// Ends a running server: `Run` to `Closing` to `Shutdown`, announcing both. From any
    /// other state it fails and changes nothing.
    pub fn shut_down(&mut self) -> (r: Result<(), &'static str>)
        ensures
            old(self)@ == ServerState::Run ==> r is Ok && final(self)@ == ServerState::Shutdown
                && final(self).announced() == old(self).announced().push(
                ServerState::Closing,
            ).push(ServerState::Shutdown),
            old(self)@ != ServerState::Run ==> r is Err && final(self)@ == old(self)@
                && final(self).announced() == old(self).announced(),
    {
        match self.transition_to(ServerState::Closing) {
            Err(e) => {
                return Err(e);
            },
            Ok(()) => {},
        }
        self.transition_to(ServerState::Shutdown)
    }

    pub fn curent_state(&self) -> (r: ServerState)
        ensures
            r == self@,
    {
        self.state
    }

    /// A receiver of the states announced from now on.
    pub fn subscribe(&self) -> Receiver<ServerState> {
        receiver_of(&self.state_sender)
    }
}

#[derive(Debug, PartialEq, Eq, Structural)]
pub enum ServerError {
    PortAlReadyUsed,
}

/// A transition is legal exactly when it moves one step forward in the order
/// `Booting, Ready, Run, Closing, Shutdown`: skipping a state, staying, or going back fails.
pub proof fn lemma_transitions_step_forward(from: ServerState, to: ServerState)
    ensures
        can_transition(from, to) <==> rank(to) == rank(from) + 1,
{
}

} // verus!
