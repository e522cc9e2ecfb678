//! What the room does with the messages of its clients.
//!
//! The room reads and writes no socket itself. It is told what arrived and
//! from whom, changes its [`Registry`], and answers with a list of
//! [`Action`]s for the program around it to carry out, in order.
//!
//! Three choices that the protocol leaves open are made here. A line of chat
//! goes to everyone but its sender. A change of name is announced to nobody.
//! A newcomer is announced to those already in the room, and to the
//! newcomer itself.

use vstd::prelude::*;
use vstd::string::*;
use crate::constants::HOST_ID;
use crate::framing::{ReceiveError, TransportKind};
use crate::packet::{Message, MessageView};
use crate::registry::{
    lemma_remove_absent, lemma_remove_consistent, lemma_rename_consistent, other_than, Registry,
    RegistryView,
};

verus! {

/// Why the room did nothing with a message.
#[derive(Clone, Copy, Debug, PartialEq, Eq, Structural)]
pub enum Notice {
    /// The sender is not in the room (any more).
    UnknownSender { id: u64 },
    /// Someone other than the host asked for what only the host may ask for.
    NotHost { id: u64 },
    /// The host asked to be removed itself.
    HostKicksItself,
    /// The client that the host wants removed is not in the room.
    UnknownTarget { id: u64 },
    /// The message is none that a client sends to a room.
    Unexpected { id: u64 },
}

/// One thing for the program around the room to do.
#[derive(Debug, PartialEq, Eq)]
pub enum Action {
    /// Send `message` to the client `to`.
    Send { to: u64, message: Message },
    /// Give up the connection of the client `id`: it has left the room.
    Close { id: u64 },
    /// Note that a message was turned down. Nothing is sent.
    Report(Notice),
    /// Close the room: wait a moment for what was sent, then stop.
    Shutdown,
}

/// What an [`Action`] says.
pub enum ActionView {
    Send { to: u64, message: MessageView },
    Close { id: u64 },
    Report(Notice),
    Shutdown,
}

impl View for Action {
    type V = ActionView;

    open spec fn view(&self) -> ActionView {
        match self {
            Action::Send { to, message } => ActionView::Send { to: *to, message: message@ },
            Action::Close { id } => ActionView::Close { id: *id },
            Action::Report(notice) => ActionView::Report(*notice),
            Action::Shutdown => ActionView::Shutdown,
        }
    }
}

/// What a list of actions says.
pub open spec fn actions_view(actions: Seq<Action>) -> Seq<ActionView> {
    actions.map_values(|action: Action| action@)
}

/// A line that the room itself says about the client named `name`.
pub open spec fn server_notice(name: Seq<char>, event: Seq<char>) -> MessageView {
    MessageView::ServerText("[server]"@, name + event)
}

/// The announcement that `name` has joined.
pub open spec fn joined_notice(name: Seq<char>) -> MessageView {
    server_notice(name, " has joined the room"@)
}

/// The announcement that `name` has said goodbye or has lost its connection.
pub open spec fn left_notice(name: Seq<char>) -> MessageView {
    server_notice(name, " has left the room"@)
}

/// The announcement that `name`, just announced, could not be reached.
pub open spec fn dropped_notice(name: Seq<char>) -> MessageView {
    server_notice(name, " left the room"@)
}

/// The announcement that the host has removed `name`.
pub open spec fn kicked_notice(name: Seq<char>) -> MessageView {
    server_notice(name, " was kicked by the host"@)
}

/// The test that every id passes that is not in `exclude`.
pub open spec fn not_among(exclude: Seq<u64>) -> spec_fn(u64) -> bool {
    |id: u64| !exclude.contains(id)
}

/// The making of the action that sends `message` to a given client.
pub open spec fn send_to(message: MessageView) -> spec_fn(u64) -> ActionView {
    |id: u64| ActionView::Send { to: id, message }
}

/// `message`, sent to each of `ids` that is not in `exclude`, in the order
/// of `ids`.
pub open spec fn distribution(ids: Seq<u64>, message: MessageView, exclude: Seq<u64>) -> Seq<
    ActionView,
> {
    ids.filter(not_among(exclude)).map_values(send_to(message))
}

/// The one action that turns a message down.
pub open spec fn turned_down(notice: Notice) -> Seq<ActionView> {
    seq![ActionView::Report(notice)]
}

/// What the room makes of `message` from the client `sender`: the registry
/// afterwards, and the actions to carry out.
///
/// - A line of chat from a client in the room goes, under the sender's
///   name, to everyone else.
/// - A goodbye from a client in the room removes it. Its connection is given
///   up, and those who remain are told that it left.
/// - A new name replaces the old one of a client in the room, silently.
/// - A kick by the host removes the client it names, unless that is the host
///   itself or nobody in the room. The client is told first, then its
///   connection is given up, and those who remain are told.
/// - A request for the roster by a client in the room is answered to that
///   client alone.
/// - A shutdown by the host is passed on to everyone, and the room closes.
/// - Anything else is turned down and changes nothing, and so is each of the
///   above where its condition does not hold.
pub open spec fn handled(registry: RegistryView, sender: u64, message: MessageView) -> (
    RegistryView,
    Seq<ActionView>,
) {
    match message {
        MessageView::ServerShutdown => if sender == HOST_ID {
            (
                registry,
                distribution(registry.ids, MessageView::ServerShutdown, Seq::empty()).push(
                    ActionView::Shutdown,
                ),
            )
        } else {
            (registry, turned_down(Notice::NotHost { id: sender }))
        },
        MessageView::ClientText(text) => if registry.registered(sender) {
            (
                registry,
                distribution(
                    registry.ids,
                    MessageView::ServerText(registry.names[sender], text),
                    seq![sender],
                ),
            )
        } else {
            (registry, turned_down(Notice::UnknownSender { id: sender }))
        },
        MessageView::ClientGoodbye => if registry.registered(sender) {
            (
                registry.remove(sender),
                seq![ActionView::Close { id: sender }] + distribution(
                    registry.remove(sender).ids,
                    left_notice(registry.names[sender]),
                    Seq::empty(),
                ),
            )
        } else {
            (registry, turned_down(Notice::UnknownSender { id: sender }))
        },
        MessageView::ClientRename(name) => if registry.registered(sender) {
            (registry.rename(sender, name), Seq::empty())
        } else {
            (registry, turned_down(Notice::UnknownSender { id: sender }))
        },
        MessageView::ClientKick(target) => if sender != HOST_ID {
            (registry, turned_down(Notice::NotHost { id: sender }))
        } else if target == HOST_ID {
            (registry, turned_down(Notice::HostKicksItself))
        } else if !registry.registered(target) {
            (registry, turned_down(Notice::UnknownTarget { id: target }))
        } else {
            (
                registry.remove(target),
                seq![
                    ActionView::Send { to: target, message: MessageView::ServerNotifyKick },
                    ActionView::Close { id: target },
                ] + distribution(
                    registry.remove(target).ids,
                    kicked_notice(registry.names[target]),
                    Seq::empty(),
                ),
            )
        },
        MessageView::ClientRequestIDs => if registry.registered(sender) {
            (
                registry,
                seq![
                    ActionView::Send {
                        to: sender,
                        message: MessageView::ServerResponseIDs(registry.roster()),
                    },
                ],
            )
        } else {
            (registry, turned_down(Notice::UnknownSender { id: sender }))
        },
        _ => (registry, turned_down(Notice::Unexpected { id: sender })),
    }
}

/// Whether `id` is one of `list`.
fn among(list: &[u64], id: u64) -> (found: bool)
    ensures
        found == list@.contains(id),
{
    let mut i: usize = 0;
    while i < list.len()
        invariant
            i <= list.len(),
            forall|j: int| 0 <= j < i ==> list@[j] != id,
        decreases list.len() - i,
    {
        if list[i] == id {
            return true;
        }
        i += 1;
    }
    false
}

/// The line that the room says about `name`.
fn notice(name: &String, event: &str) -> (message: Message)
    ensures
        message@ == server_notice(name@, event@),
{
    Message::ServerText(String::from_str("[server]"), name.clone().concat(event))
}

/// The one action that turns a message down.
fn turn_down(notice: Notice) -> (actions: Vec<Action>)
    ensures
        actions_view(actions@) == turned_down(notice),
{
    let mut actions: Vec<Action> = Vec::new();
    actions.push(Action::Report(notice));
    assert(actions_view(actions@) =~= turned_down(notice));
    actions
}

/// Sends `message` to every client in the room that is not in `exclude`, in
/// the order in which the clients joined.
pub fn server_distribute_message(registry: &Registry, message: &Message, exclude: &[u64]) -> (actions:
    Vec<Action>)
    ensures
        actions_view(actions@) == distribution(registry@.ids, message@, exclude@),
{
    let ids = registry.ids();
    let mut actions: Vec<Action> = Vec::new();
    let mut i: usize = 0;
    assert(ids@.take(0).filter(not_among(exclude@)) =~= Seq::<u64>::empty()) by {
        reveal(Seq::filter);
    }
    assert(actions_view(actions@) =~= distribution(ids@.take(0), message@, exclude@));
    while i < ids.len()
        invariant
            i <= ids.len(),
            actions_view(actions@) == distribution(ids@.take(i as int), message@, exclude@),
        decreases ids.len() - i,
    {
        let id = ids[i];
        proof {
            let sofar = ids@.take(i as int);
            sofar.lemma_filter_push(id, not_among(exclude@));
            assert(ids@.take(i + 1) =~= sofar.push(id));
            sofar.filter(not_among(exclude@)).lemma_push_map_commute(send_to(message@), id);
        }
        if !among(exclude, id) {
            let ghost before = actions@;
            actions.push(Action::Send { to: id, message: message.clone() });
            assert(actions_view(actions@) =~= actions_view(before).push(
                ActionView::Send { to: id, message: message@ },
            ));
        }
        i += 1;
    }
    assert(ids@.take(i as int) =~= ids@);
    actions
}

/// Applies `message`, which came from the client `sender`, to the room:
/// see [`handled`].
pub fn server_handle_message(message: &Message, sender: u64, registry: &mut Registry) -> (actions:
    Vec<Action>)
    ensures
        final(registry).wf(),
        final(registry)@ == handled(old(registry)@, sender, message@).0,
        actions_view(actions@) == handled(old(registry)@, sender, message@).1,
{
    proof {
        use_type_invariant(&*registry);
    }
    let nobody: Vec<u64> = Vec::new();
    match message {
        Message::ServerShutdown => {
            if sender != HOST_ID {
                return turn_down(Notice::NotHost { id: sender });
            }
            let mut actions = server_distribute_message(registry, message, nobody.as_slice());
            let ghost before = actions@;
            actions.push(Action::Shutdown);
            assert(actions_view(actions@) =~= actions_view(before).push(ActionView::Shutdown));
            actions
        },
        Message::ClientText(text) => {
            let line = match registry.name_of(sender) {
                Some(name) => Message::ServerText(name.clone(), text.clone()),
                None => {
                    return turn_down(Notice::UnknownSender { id: sender });
                },
            };
            let mut but_sender: Vec<u64> = Vec::new();
            but_sender.push(sender);
            assert(but_sender@ =~= seq![sender]);
            server_distribute_message(registry, &line, but_sender.as_slice())
        },
        Message::ClientGoodbye => {
            match registry.remove(sender) {
                Some(name) => {
                    let mut actions: Vec<Action> = Vec::new();
                    actions.push(Action::Close { id: sender });
                    let mut told = server_distribute_message(
                        registry,
                        &notice(&name, " has left the room"),
                        nobody.as_slice(),
                    );
                    let ghost first = actions@;
                    let ghost rest = told@;
                    actions.append(&mut told);
                    assert(actions_view(actions@) =~= actions_view(first) + actions_view(rest));
                    assert(actions_view(first) =~= seq![ActionView::Close { id: sender }]);
                    actions
                },
                None => {
                    proof {
                        lemma_remove_absent(old(registry)@, sender);
                    }
                    turn_down(Notice::UnknownSender { id: sender })
                },
            }
        },
        Message::ClientRename(name) => {
            if registry.rename(sender, name.clone()) {
                let actions: Vec<Action> = Vec::new();
                assert(actions_view(actions@) =~= Seq::<ActionView>::empty());
                actions
            } else {
                turn_down(Notice::UnknownSender { id: sender })
            }
        },
        Message::ClientKick(target) => {
            if sender != HOST_ID {
                return turn_down(Notice::NotHost { id: sender });
            }
            if *target == HOST_ID {
                return turn_down(Notice::HostKicksItself);
            }
            match registry.remove(*target) {
                Some(name) => {
                    let mut actions: Vec<Action> = Vec::new();
                    actions.push(Action::Send { to: *target, message: Message::ServerNotifyKick });
                    actions.push(Action::Close { id: *target });
                    let mut told = server_distribute_message(
                        registry,
                        &notice(&name, " was kicked by the host"),
                        nobody.as_slice(),
                    );
                    let ghost first = actions@;
                    let ghost rest = told@;
                    actions.append(&mut told);
                    assert(actions_view(actions@) =~= actions_view(first) + actions_view(rest));
                    assert(actions_view(first) =~= seq![
                        ActionView::Send { to: *target, message: MessageView::ServerNotifyKick },
                        ActionView::Close { id: *target },
                    ]);
                    actions
                },
                None => {
                    proof {
                        lemma_remove_absent(old(registry)@, *target);
                    }
                    turn_down(Notice::UnknownTarget { id: *target })
                },
            }
        },
        Message::ClientRequestIDs => {
            if !registry.contains(sender) {
                return turn_down(Notice::UnknownSender { id: sender });
            }
            let mut actions: Vec<Action> = Vec::new();
            actions.push(
                Action::Send { to: sender, message: Message::ServerResponseIDs(registry.roster()) },
            );
            assert(actions_view(actions@) =~= seq![
                ActionView::Send {
                    to: sender,
                    message: MessageView::ServerResponseIDs(registry@.roster()),
                },
            ]);
            actions
        },
        _ => turn_down(Notice::Unexpected { id: sender }),
    }
}

/// What the room does after it has polled one client.
#[derive(Debug, PartialEq, Eq)]
pub enum PollStep {
    /// Put `message` into the queue, under the client's id. If `again` is
    /// set, poll the same client once more before the next: another message
    /// may have arrived behind this one.
    Enqueue { message: Message, again: bool },
    /// Empty the client's buffer: it holds a frame that does not decode.
    Reset,
    /// Nothing to do: no whole message is there yet.
    Idle,
    /// Note that the client's connection could not be read. The client stays
    /// in the room.
    Report(ReceiveError),
}

/// Decides what follows from one poll of a client's connection.
///
/// A message is queued, and the client is polled again, so that a round
/// gathers all that has arrived. A connection that was reset or aborted
/// counts as a goodbye from that client. A frame that does not decode has
/// the client's buffer emptied, and the client stays. A frame that is not
/// whole yet, or a stream with nothing to read, means to come back in the
/// next round. Any other failure is noted, and the client stays.
pub fn server_poll_step(polled: Result<Message, ReceiveError>) -> (step: PollStep)
    ensures
        step == match polled {
            Ok(message) => PollStep::Enqueue { message, again: true },
            Err(ReceiveError::Transport(TransportKind::WouldBlock)) => PollStep::Idle,
            Err(ReceiveError::Transport(TransportKind::ConnectionReset)) => PollStep::Enqueue {
                message: Message::ClientGoodbye,
                again: false,
            },
            Err(ReceiveError::Transport(TransportKind::ConnectionAborted)) => PollStep::Enqueue {
                message: Message::ClientGoodbye,
                again: false,
            },
            Err(ReceiveError::Malformed) => PollStep::Reset,
            Err(ReceiveError::Incomplete) => PollStep::Idle,
            Err(other) => PollStep::Report(other),
        },
{
    match polled {
        Ok(message) => PollStep::Enqueue { message, again: true },
        Err(ReceiveError::Transport(TransportKind::WouldBlock)) => PollStep::Idle,
        Err(ReceiveError::Transport(TransportKind::ConnectionReset)) => PollStep::Enqueue {
            message: Message::ClientGoodbye,
            again: false,
        },
        Err(ReceiveError::Transport(TransportKind::ConnectionAborted)) => PollStep::Enqueue {
            message: Message::ClientGoodbye,
            again: false,
        },
        Err(ReceiveError::Malformed) => PollStep::Reset,
        Err(ReceiveError::Incomplete) => PollStep::Idle,
        Err(other) => PollStep::Report(other),
    }
}

/// What a queue of messages says, each with the id of its sender.
pub open spec fn queue_view(queue: Seq<(u64, Message)>) -> Seq<(u64, MessageView)> {
    queue.map_values(|entry: (u64, Message)| (entry.0, entry.1@))
}

/// Whether a list of actions ends by closing the room.
pub open spec fn closes_room(actions: Seq<ActionView>) -> bool {
    actions.len() > 0 && actions.last() == ActionView::Shutdown
}

/// What the room makes of a queue of messages: each is applied in turn, to
/// the registry that the one before it left behind, and the actions follow
/// one another. Once the room closes, what is left in the queue is dropped.
pub open spec fn applied(registry: RegistryView, queue: Seq<(u64, MessageView)>) -> (
    RegistryView,
    Seq<ActionView>,
)
    decreases queue.len(),
{
    if queue.len() == 0 {
        (registry, Seq::empty())
    } else {
        let first = handled(registry, queue[0].0, queue[0].1);
        if closes_room(first.1) {
            first
        } else {
            let rest = applied(first.0, queue.skip(1));
            (rest.0, first.1 + rest.1)
        }
    }
}

/// Applies the messages that one round of polling has gathered, in the
/// order in which they were gathered: see [`applied`].
pub fn server_apply_queue(queue: &Vec<(u64, Message)>, registry: &mut Registry) -> (actions: Vec<
    Action,
>)
    ensures
        final(registry).wf(),
        final(registry)@ == applied(old(registry)@, queue_view(queue@)).0,
        actions_view(actions@) == applied(old(registry)@, queue_view(queue@)).1,
{
    proof {
        use_type_invariant(&*registry);
    }
    let ghost whole = applied(registry@, queue_view(queue@));
    let mut actions: Vec<Action> = Vec::new();
    let mut i: usize = 0;
    assert(queue_view(queue@).skip(0) =~= queue_view(queue@));
    assert(actions_view(actions@) + whole.1 =~= whole.1);
    while i < queue.len()
        invariant
            i <= queue.len(),
            registry.wf(),
            whole == applied(old(registry)@, queue_view(queue@)),
            whole.0 == applied(registry@, queue_view(queue@).skip(i as int)).0,
            whole.1 == actions_view(actions@) + applied(
                registry@,
                queue_view(queue@).skip(i as int),
            ).1,
        decreases queue.len() - i,
    {
        let ghost left = queue_view(queue@).skip(i as int);
        let ghost before = registry@;
        let ghost done = actions@;
        assert(left[0] == (queue@[i as int].0, queue@[i as int].1@));
        assert(left.skip(1) =~= queue_view(queue@).skip(i + 1));
        let mut step = server_handle_message(&queue[i].1, queue[i].0, registry);
        let ghost made = step@;
        let closing = step.len() > 0 && matches!(step[step.len() - 1], Action::Shutdown);
        assert(closing == closes_room(actions_view(made)));
        actions.append(&mut step);
        assert(actions_view(actions@) =~= actions_view(done) + actions_view(made));
        if closing {
            return actions;
        }
        assert(whole.1 =~= actions_view(actions@) + applied(registry@, left.skip(1)).1);
        i += 1;
    }
    assert(actions_view(actions@) + Seq::<ActionView>::empty() =~= actions_view(actions@));
    actions
}

/// Why a new connection was turned away before it joined.
#[derive(Clone, Copy, Debug, PartialEq, Eq, Structural)]
pub enum Refusal {
    /// Its first message was not a hello.
    NotHello,
    /// No first message came: the time ran out, the frame did not decode, or
    /// the stream failed.
    NoMessage(ReceiveError),
}

/// What the room makes of the first message on a new connection.
#[derive(Debug, PartialEq, Eq)]
pub enum Greeting {
    /// The newcomer said hello. `announcement` is for everyone in the room,
    /// and then for the newcomer itself.
    Welcome { name: String, announcement: Message },
    /// The connection is dropped, and nobody hears of it.
    Refused(Refusal),
}

/// Judges the first message of a new connection: only a hello lets the
/// newcomer in.
pub fn server_greet(first: Result<Message, ReceiveError>) -> (greeting: Greeting)
    ensures
        match first {
            Ok(Message::ClientHello(said)) => greeting matches Greeting::Welcome {
                name,
                announcement,
            } && name@ == said@ && announcement@ == joined_notice(said@),
            Ok(_) => greeting == Greeting::Refused(Refusal::NotHello),
            Err(e) => greeting == Greeting::Refused(Refusal::NoMessage(e)),
        },
{
    match first {
        Ok(Message::ClientHello(name)) => {
            let announcement = notice(&name, " has joined the room");
            Greeting::Welcome { name, announcement }
        },
        Ok(_) => Greeting::Refused(Refusal::NotHello),
        Err(e) => Greeting::Refused(Refusal::NoMessage(e)),
    }
}

/// How the attempt to take a newcomer into the room ended.
#[derive(Debug, PartialEq, Eq)]
pub enum Admission {
    /// The newcomer is in the room, under this id.
    Joined { id: u64 },
    /// The newcomer could not be reached with its own announcement and is
    /// not in the room. `told` says so to those who had heard of it.
    Unreachable { told: Vec<Action> },
    /// The room has no id left to give. The newcomer is not in the room.
    Full,
}

/// Finishes the welcome of a newcomer named `name`. `greeted` says whether
/// the announcement reached the newcomer itself.
///
/// If it did, the newcomer joins under the next id. If it did not, the room
/// stays as it is, and everyone in it is told that the newcomer left.
pub fn server_accept_connection(registry: &mut Registry, name: String, greeted: bool) -> (admission:
    Admission)
    ensures
        final(registry).wf(),
        greeted ==> final(registry)@ == old(registry)@.register(name@),
        greeted && old(registry)@.has_spare_id() ==> admission == (Admission::Joined {
            id: old(registry)@.next_id,
        }),
        greeted && !old(registry)@.has_spare_id() ==> admission == Admission::Full,
        !greeted ==> final(registry)@ == old(registry)@,
        !greeted ==> (admission matches Admission::Unreachable { told } && actions_view(told@)
            == distribution(old(registry)@.ids, dropped_notice(name@), Seq::empty())),
{
    proof {
        use_type_invariant(&*registry);
    }
    if greeted {
        match registry.register(name) {
            Some(id) => Admission::Joined { id },
            None => Admission::Full,
        }
    } else {
        let nobody: Vec<u64> = Vec::new();
        let told = server_distribute_message(
            registry,
            &notice(&name, " left the room"),
            nobody.as_slice(),
        );
        Admission::Unreachable { told }
    }
}

/// Whether `action` sends something to the client `id`.
pub open spec fn sends_to(action: ActionView, id: u64) -> bool {
    action matches ActionView::Send { to, .. } && to == id
}

/// Whatever `ids` a message is distributed to, each of its actions sends
/// the message to one of them that is not excluded.
pub proof fn lemma_distribution_reaches_ids_only(
    ids: Seq<u64>,
    message: MessageView,
    exclude: Seq<u64>,
    i: int,
)
    requires
        0 <= i < distribution(ids, message, exclude).len(),
    ensures
        distribution(ids, message, exclude)[i] matches ActionView::Send { to, message: sent }
            && sent == message && ids.contains(to) && !exclude.contains(to),
{
    let chosen = ids.filter(not_among(exclude));
    ids.lemma_filter_pred(not_among(exclude), i);
    assert(chosen.contains(chosen[i]));
    ids.lemma_filter_contains_rev(not_among(exclude), chosen[i]);
}

/// Whatever message comes from whomever, the room stays consistent: after it
/// the connected clients are still exactly those that have a name.
pub proof fn lemma_handled_keeps_consistency(
    registry: RegistryView,
    sender: u64,
    message: MessageView,
)
    requires
        registry.consistent(),
    ensures
        handled(registry, sender, message).0.consistent(),
        handled(registry, sender, message).0.next_id == registry.next_id,
{
    match message {
        MessageView::ClientGoodbye => lemma_remove_consistent(registry, sender),
        MessageView::ClientRename(name) => lemma_rename_consistent(registry, sender, name),
        MessageView::ClientKick(target) => lemma_remove_consistent(registry, target),
        _ => {},
    }
}

/// Whatever queue of messages is applied, the room stays consistent.
pub proof fn lemma_applied_keeps_consistency(
    registry: RegistryView,
    queue: Seq<(u64, MessageView)>,
)
    requires
        registry.consistent(),
    ensures
        applied(registry, queue).0.consistent(),
    decreases queue.len(),
{
    if queue.len() > 0 {
        lemma_handled_keeps_consistency(registry, queue[0].0, queue[0].1);
        let first = handled(registry, queue[0].0, queue[0].1);
        if !closes_room(first.1) {
            lemma_applied_keeps_consistency(first.0, queue.skip(1));
        }
    }
}

/// Nothing is ever sent to a stranger: whatever the room sends in answer to
/// a message goes to a client that was in the room when the message came.
pub proof fn lemma_recipients_are_in_the_room(
    registry: RegistryView,
    sender: u64,
    message: MessageView,
    i: int,
    id: u64,
)
    requires
        registry.consistent(),
        0 <= i < handled(registry, sender, message).1.len(),
        sends_to(handled(registry, sender, message).1[i], id),
    ensures
        registry.registered(id),
{
    let actions = handled(registry, sender, message).1;
    match message {
        MessageView::ServerShutdown => {
            if sender == HOST_ID {
                let told = distribution(registry.ids, MessageView::ServerShutdown, Seq::empty());
                lemma_distribution_reaches_ids_only(
                    registry.ids,
                    MessageView::ServerShutdown,
                    Seq::empty(),
                    i,
                );
                assert(actions[i] == told[i]);
                assert(registry.ids.to_set().contains(id));
            }
        },
        MessageView::ClientText(text) => {
            if registry.registered(sender) {
                lemma_distribution_reaches_ids_only(
                    registry.ids,
                    MessageView::ServerText(registry.names[sender], text),
                    seq![sender],
                    i,
                );
                assert(registry.ids.to_set().contains(id));
            }
        },
        MessageView::ClientGoodbye => {
            if registry.registered(sender) {
                let after = registry.remove(sender);
                lemma_distribution_reaches_ids_only(
                    after.ids,
                    left_notice(registry.names[sender]),
                    Seq::empty(),
                    i - 1,
                );
                registry.ids.lemma_filter_contains_rev(other_than(sender), id);
                assert(registry.ids.to_set().contains(id));
            }
        },
        MessageView::ClientKick(target) => {
            if sender == HOST_ID && target != HOST_ID && registry.registered(target) && i >= 2 {
                let after = registry.remove(target);
                lemma_distribution_reaches_ids_only(
                    after.ids,
                    kicked_notice(registry.names[target]),
                    Seq::empty(),
                    i - 2,
                );
                registry.ids.lemma_filter_contains_rev(other_than(target), id);
                assert(registry.ids.to_set().contains(id));
            }
        },
        _ => {},
    }
}

/// A line of chat never comes back to the one who wrote it.
pub proof fn lemma_text_skips_its_sender(
    registry: RegistryView,
    sender: u64,
    text: Seq<char>,
    i: int,
)
    requires
        0 <= i < handled(registry, sender, MessageView::ClientText(text)).1.len(),
    ensures
        !sends_to(handled(registry, sender, MessageView::ClientText(text)).1[i], sender),
{
    if registry.registered(sender) {
        lemma_distribution_reaches_ids_only(
            registry.ids,
            MessageView::ServerText(registry.names[sender], text),
            seq![sender],
            i,
        );
        assert(seq![sender][0] == sender);
    }
}

} // verus!
