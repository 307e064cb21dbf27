//! A log that takes the text that a logging back end writes to it.
use vstd::prelude::*;
use vstd::string::StringExecFns;
use vstd::string::StringSliceAdditionalSpecFns;
use crate::text::is_word;

verus! {

/// How grave a message is.
#[derive(Clone, Copy, Debug, PartialEq, Eq, Structural)]
pub enum LogLevel {
    Error,
    Warn,
    Info,
    Debug,
}

/// A message with its level.
#[derive(Clone, Debug)]
pub struct LogMessage {
    pub level: LogLevel,
    pub message: String,
}

/// What a [`LogMessage`] holds.
pub struct LogMessageView {
    pub level: LogLevel,
    pub message: Seq<char>,
}

impl View for LogMessage {
    type V = LogMessageView;

    open spec fn view(&self) -> LogMessageView {
        LogMessageView { level: self.level, message: self.message@ }
    }
}

impl LogMessage {
    /// The message `message` of the given level.
    pub fn new(level: LogLevel, message: &str) -> (r: LogMessage)
        ensures
            r@ == (LogMessageView { level, message: message@ }),
    {
        LogMessage { level, message: String::from_str(message) }
    }
}

/// What each message of a list holds.
pub open spec fn message_views(s: Seq<LogMessage>) -> Seq<LogMessageView> {
    Seq::new(s.len(), |i: int| s[i]@)
}

/// The messages logged so far, oldest first.
pub struct Log {
    pub history: Vec<LogMessage>,
}

impl View for Log {
    type V = Seq<LogMessageView>;

    open spec fn view(&self) -> Seq<LogMessageView> {
        message_views(self.history@)
    }
}

impl Log {
    /// Forgets all messages.
    pub fn clear(&mut self)
        ensures
            final(self)@ == Seq::<LogMessageView>::empty(),
    {
        self.history.clear();
        assert(self@ =~= Seq::<LogMessageView>::empty());
    }

    /// Adds a message of the given level behind the others.
    pub fn log(&mut self, message: &str, level: LogLevel)
        ensures
            final(self)@ == old(self)@.push(LogMessageView { level, message: message@ }),
    {
        let ghost before = self@;
        let entry = LogMessage::new(level, message);
        self.history.push(entry);
        assert(self@ =~= before.push(entry@));
    }
}

impl Default for Log {
    fn default() -> (r: Log)
        ensures
            r@ == Seq::<LogMessageView>::empty(),
    {
        let r = Log { history: Vec::new() };
        assert(r@ =~= Seq::<LogMessageView>::empty());
        r
    }
}

/// The bytes of a text before its first space, or all of them where it
/// holds none.
pub open spec fn first_word(s: Seq<u8>) -> Seq<u8>
    decreases s.len(),
{
    if s.len() == 0 || s[0] == 32 {
        Seq::empty()
    } else {
        seq![s[0]] + first_word(s.skip(1))
    }
}

/// The level that a written text starts with: `[ERROR]`, `[WARN]`,
/// `[INFO]` or `[DEBUG]` as its first word; `Info` for any other start.
pub open spec fn level_of(s: Seq<u8>) -> LogLevel {
    let word = first_word(s);
    if word == "[ERROR]".spec_bytes() {
        LogLevel::Error
    } else if word == "[WARN]".spec_bytes() {
        LogLevel::Warn
    } else if word == "[INFO]".spec_bytes() {
        LogLevel::Info
    } else if word == "[DEBUG]".spec_bytes() {
        LogLevel::Debug
    } else {
        LogLevel::Info
    }
}

/// Whether a byte string holds a line feed.
pub open spec fn has_line_feed(s: Seq<u8>) -> bool {
    exists|i: int| 0 <= i < s.len() && s[i] == 10
}

proof fn lemma_first_word(s: Seq<u8>, n: int)
    requires
        0 <= n <= s.len(),
        forall|k: int| 0 <= k < n ==> s[k] != 32,
        n == s.len() || s[n] == 32,
    ensures
        first_word(s) == s.take(n),
    decreases n,
{
    if n == 0 {
        assert(s.take(0) =~= Seq::<u8>::empty());
    } else {
        let t = s.skip(1);
        assert forall|k: int| 0 <= k < n - 1 implies t[k] != 32 by {
            assert(t[k] == s[k + 1]);
        }
        lemma_first_word(t, n - 1);
        assert(seq![s[0]] + t.take(n - 1) =~= s.take(n));
    }
}

/// A log with a buffer in front of it: text that is written gathers in the
/// buffer and becomes one message when a line ends.
pub struct WritableLog {
    pub log: Log,
    buf: String,
}

/// What a [`WritableLog`] holds.
pub struct WritableLogView {
    pub log: Seq<LogMessageView>,
    pub buf: Seq<char>,
}

impl View for WritableLog {
    type V = WritableLogView;

    closed spec fn view(&self) -> WritableLogView {
        WritableLogView { log: self.log@, buf: self.buf@ }
    }
}

impl WritableLogView {
    /// The log after the buffer became a message: the message holds the
    /// buffer's text and has the level that the text starts with, and the
    /// buffer is empty.
    pub open spec fn flushed(self) -> WritableLogView {
        WritableLogView {
            log: self.log.push(
                LogMessageView {
                    level: level_of(vstd::utf8::encode_utf8(self.buf)),
                    message: self.buf,
                },
            ),
            buf: Seq::empty(),
        }
    }

    /// The log after `text` was written: the text joins the buffer, and
    /// the buffer becomes a message where the text holds a line feed.
    pub open spec fn written(self, text: Seq<char>) -> WritableLogView {
        let joined = WritableLogView { log: self.log, buf: self.buf + text };
        if has_line_feed(vstd::utf8::encode_utf8(text)) {
            joined.flushed()
        } else {
            joined
        }
    }
}

impl WritableLog {
    /// Takes in written text, and gives the number of bytes taken: all of
    /// them.
    pub fn write(&mut self, text: &str) -> (n: usize)
        ensures
            final(self)@ == old(self)@.written(text@),
            n == text.spec_bytes().len(),
    {
        self.buf.append(text);
        let bytes = text.as_bytes();
        let mut i: usize = 0;
        let mut found: bool = false;
        while i < bytes.len()
            invariant
                i <= bytes@.len(),
                found == (exists|k: int| 0 <= k < i && bytes@[k] == 10),
            decreases bytes@.len() - i,
        {
            if bytes[i] == 10 {
                found = true;
            }
            i += 1;
        }
        if found {
            self.flush();
        }
        bytes.len()
    }

    /// Makes a message of the buffer.
    pub fn flush(&mut self)
        ensures
            final(self)@ == old(self)@.flushed(),
    {
        let bytes = self.buf.as_str().as_bytes();
        let mut n: usize = 0;
        while n < bytes.len() && bytes[n] != 32
            invariant
                n <= bytes@.len(),
                forall|k: int| 0 <= k < n ==> bytes@[k] != 32,
            decreases bytes@.len() - n,
        {
            n += 1;
        }
        proof {
            lemma_first_word(bytes@, n as int);
        }
        let word = vstd::slice::slice_subrange(bytes, 0, n);
        let level = if is_word(word, "[ERROR]") {
            LogLevel::Error
        } else if is_word(word, "[WARN]") {
            LogLevel::Warn
        } else if is_word(word, "[INFO]") {
            LogLevel::Info
        } else if is_word(word, "[DEBUG]") {
            LogLevel::Debug
        } else {
            LogLevel::Info
        };
        let mut message = String::new();
        core::mem::swap(&mut self.buf, &mut message);
        let ghost before = self.log@;
        let entry = LogMessage { level, message };
        self.log.history.push(entry);
        assert(self.log@ =~= before.push(entry@));
    }
}

impl Default for WritableLog {
    fn default() -> (r: WritableLog)
        ensures
            r@ == (WritableLogView { log: Seq::empty(), buf: Seq::empty() }),
    {
        WritableLog { log: Log::default(), buf: String::new() }
    }
}

} // verus!
