//! The messages that the program shows in its console.
use vstd::prelude::*;
use vstd::string::StringExecFns;

verus! {

/// How grave a message is.
#[derive(Clone, Copy, Debug, PartialEq, Eq, Structural)]
pub enum LogLevel {
    Debug,
    Info,
    Warning,
    Error,
}

impl LogLevel {
    /// The word that stands for the level in a message.
    pub open spec fn severity(self) -> Seq<char> {
        match self {
            LogLevel::Debug => "DEBUG"@,
            LogLevel::Info => "INFO"@,
            LogLevel::Warning => "WARNING"@,
            LogLevel::Error => "ERROR"@,
        }
    }
}

/// A message with its level.
#[derive(Clone, Debug)]
pub struct LogMessage {
    pub level: LogLevel,
    pub message: String,
}

/// What a [`LogMessage`] holds.
pub struct LogMessageView {
    pub level: LogLevel,
    pub message: Seq<char>,
}

impl View for LogMessage {
    type V = LogMessageView;

    open spec fn view(&self) -> LogMessageView {
        LogMessageView { level: self.level, message: self.message@ }
    }
}

/// The text of a message of the given level: the level's word in square
/// brackets, a colon, a space and the message.
pub open spec fn formatted(level: LogLevel, message: Seq<char>) -> Seq<char> {
    "["@ + level.severity() + "]: "@ + message
}

impl LogMessage {
    /// The message `message` of the given level, with the level written in
    /// front of it.
    pub fn new(level: LogLevel, message: &str) -> (r: LogMessage)
        ensures
            r@ == (LogMessageView { level, message: formatted(level, message@) }),
    {
        let severity = match level {
            LogLevel::Debug => "DEBUG",
            LogLevel::Info => "INFO",
            LogLevel::Warning => "WARNING",
            LogLevel::Error => "ERROR",
        };
        let mut text = String::from_str("[");
        text.append(severity);
        text.append("]: ");
        text.append(message);
        LogMessage { level, message: text }
    }
}

/// What each message of a list holds.
pub open spec fn message_views(s: Seq<LogMessage>) -> Seq<LogMessageView> {
    Seq::new(s.len(), |i: int| s[i]@)
}

/// The messages logged so far, oldest first.
pub struct Log {
    pub history: Vec<LogMessage>,
}

impl View for Log {
    type V = Seq<LogMessageView>;

    open spec fn view(&self) -> Seq<LogMessageView> {
        message_views(self.history@)
    }
}

impl Log {
    /// Forgets all messages.
    pub fn clear(&mut self)
        ensures
            final(self)@ == Seq::<LogMessageView>::empty(),
    {
        self.history.clear();
        assert(self@ =~= Seq::<LogMessageView>::empty());
    }

    /// Adds a message of the given level behind the others.
    pub fn log(&mut self, message: &str, level: LogLevel)
        ensures
            final(self)@ == old(self)@.push(
                LogMessageView { level, message: formatted(level, message@) },
            ),
    {
        let ghost before = self@;
        let entry = LogMessage::new(level, message);
        self.history.push(entry);
        assert(self@ =~= before.push(entry@));
    }
}

impl Default for Log {
    fn default() -> (r: Log)
        ensures
            r@ == Seq::<LogMessageView>::empty(),
    {
        let r = Log { history: Vec::new() };
        assert(r@ =~= Seq::<LogMessageView>::empty());
        r
    }
}

} // verus!
