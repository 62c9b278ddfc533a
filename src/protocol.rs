use vstd::prelude::*;

verus! {

/// Why the daemon refused or failed a request.
#[derive(Clone, Copy, Debug, PartialEq, Eq, Structural)]
pub enum StopwatchError {
    UnexpectedMessage,
    PresenceUpdateFailed,
    ExistingConnection,
}

/// What is (or was) running: the crate and the command run on it.
#[derive(Clone, Debug, PartialEq, Eq)]
pub struct CommandInfo {
    pub crate_name: String,
    pub command: String,
}

/// The mathematical value of a `CommandInfo`.
pub struct CommandModel {
    pub crate_name: Seq<char>,
    pub command: Seq<char>,
}

impl View for CommandInfo {
    type V = CommandModel;

    open spec fn view(&self) -> CommandModel {
        CommandModel { crate_name: self.crate_name@, command: self.command@ }
    }
}

/// The values exchanged between client and daemon, one per connection write.
#[derive(Clone, Debug, PartialEq, Eq)]
pub enum Message {
    /// Shut the daemon down.
    Close,
    /// A run has begun, at the given epoch second.
    Started(CommandInfo, u64),
    /// A run has ended after the given number of seconds.
    Stopped(CommandInfo, u64),
    /// New idle window of the daemon, in minutes.
    Timeout(u64),
    /// Liveness probe.
    Ping,
    /// Success acknowledgment.
    Ack,
    /// Failure acknowledgment.
    Error(StopwatchError),
}

/// The mathematical value of a `Message`.
pub enum MessageModel {
    Close,
    Started(CommandModel, u64),
    Stopped(CommandModel, u64),
    Timeout(u64),
    Ping,
    Ack,
    Error(StopwatchError),
}

impl View for Message {
    type V = MessageModel;

    open spec fn view(&self) -> MessageModel {
        match self {
            Message::Close => MessageModel::Close,
            Message::Started(info, t) => MessageModel::Started(info@, *t),
            Message::Stopped(info, t) => MessageModel::Stopped(info@, *t),
            Message::Timeout(n) => MessageModel::Timeout(*n),
            Message::Ping => MessageModel::Ping,
            Message::Ack => MessageModel::Ack,
            Message::Error(e) => MessageModel::Error(*e),
        }
    }
}

/// A run as the client describes it when it begins.
#[derive(Clone, Debug, PartialEq, Eq)]
pub struct StartInfo {
    pub crate_name: String,
    pub command: String,
    pub time: u64,
}

impl StartInfo {
    /// The `Started` message that announces this run.
    pub fn into_message(self) -> (r: Message)
        ensures
            r@ == MessageModel::Started(
                CommandModel { crate_name: self.crate_name@, command: self.command@ },
                self.time,
            ),
    {
        Message::Started(CommandInfo { crate_name: self.crate_name, command: self.command }, self.time)
    }
}

} // verus!
