use threedobs::logger::{Log, LogLevel, LogMessage, WritableLog};

#[test]
fn written_text_becomes_a_message_when_a_line_ends() {
    let m = LogMessage::new(LogLevel::Warn, "as it is");
    assert_eq!(m.message, "as it is");
    let mut plain = Log::default();
    plain.log("a", LogLevel::Debug);
    assert_eq!(plain.history[0].message, "a");
    assert_eq!(plain.history[0].level, LogLevel::Debug);
    plain.clear();
    assert!(plain.history.is_empty());

    let mut w = WritableLog::default();
    assert_eq!(w.write("[ERROR] disk "), 13);
    assert!(w.log.history.is_empty());
    assert_eq!(w.write("full\n"), 5);
    assert_eq!(w.log.history.len(), 1);
    assert_eq!(w.log.history[0].message, "[ERROR] disk full\n");
    assert_eq!(w.log.history[0].level, LogLevel::Error);
    for (text, level) in [
        ("[WARN] a\n", LogLevel::Warn),
        ("[INFO] b\n", LogLevel::Info),
        ("[DEBUG] c\n", LogLevel::Debug),
        ("[TRACE] d\n", LogLevel::Info),
        ("[ERROR]\n", LogLevel::Info),
        ("\n", LogLevel::Info),
        (" [ERROR] e\n", LogLevel::Info),
        ("é [ERROR]\n", LogLevel::Info),
    ] {
        assert_eq!(w.write(text), text.len());
        let last = w.log.history.last().unwrap();
        assert_eq!(last.message, text);
        assert_eq!(last.level, level, "{}", text);
    }
    w.write("[DEBUG] no line end");
    let before = w.log.history.len();
    w.flush();
    assert_eq!(w.log.history.len(), before + 1);
    assert_eq!(w.log.history.last().unwrap().level, LogLevel::Debug);
    w.flush();
    assert_eq!(w.log.history.last().unwrap().message, "");
}
